//! Frames: a payload of arbitrary bytes, escaped so that the end marker
//! occurs nowhere in it, followed by the end marker.

use vstd::prelude::*;
use crate::LAST;

verus! {

/// The byte that introduces an escape pair inside a frame.
pub const ESC: u8 = 0x1B;

/// Second byte of the pair that stands for the end marker.
pub const ESC_LAST: u8 = 0x01;

/// Second byte of the pair that stands for the escape byte itself.
pub const ESC_ESC: u8 = 0x02;

/// What one payload byte becomes inside a frame.
pub open spec fn escaped_byte(b: u8) -> Seq<u8> {
    if b == LAST {
        seq![ESC, ESC_LAST]
    } else if b == ESC {
        seq![ESC, ESC_ESC]
    } else {
        seq![b]
    }
}

/// The payload with every byte escaped, in order.
pub open spec fn escaped(payload: Seq<u8>) -> Seq<u8>
    decreases payload.len(),
{
    if payload.len() == 0 {
        Seq::empty()
    } else {
        escaped_byte(payload[0]) + escaped(payload.skip(1))
    }
}

/// The payload that an escaped body stands for, or `None` where the body
/// holds a bare end marker, an escape byte at its end, or an escape byte
/// followed by anything but one of the two codes.
pub open spec fn unescaped(body: Seq<u8>) -> Option<Seq<u8>>
    decreases body.len(),
{
    if body.len() == 0 {
        Some(Seq::empty())
    } else if body[0] == LAST {
        None
    } else if body[0] == ESC {
        if body.len() < 2 {
            None
        } else if body[1] == ESC_LAST {
            match unescaped(body.skip(2)) {
                Some(rest) => Some(seq![LAST] + rest),
                None => None,
            }
        } else if body[1] == ESC_ESC {
            match unescaped(body.skip(2)) {
                Some(rest) => Some(seq![ESC] + rest),
                None => None,
            }
        } else {
            None
        }
    } else {
        match unescaped(body.skip(1)) {
            Some(rest) => Some(seq![body[0]] + rest),
            None => None,
        }
    }
}

/// The frame of a payload: its escaped bytes, then the end marker.
pub open spec fn sealed(payload: Seq<u8>) -> Seq<u8> {
    escaped(payload).push(LAST)
}

/// The payload of a frame, or `None` where the bytes are no frame: they are
/// empty, do not end in the end marker, or hold a body that stands for no
/// payload.
pub open spec fn opened(frame: Seq<u8>) -> Option<Seq<u8>> {
    if frame.len() > 0 && frame.last() == LAST {
        unescaped(frame.drop_last())
    } else {
        None
    }
}

/// No escaped payload holds the end marker.
pub proof fn lemma_escaped_has_no_marker(payload: Seq<u8>)
    ensures
        forall|i: int| 0 <= i < escaped(payload).len() ==> escaped(payload)[i] != LAST,
    decreases payload.len(),
{
    if payload.len() > 0 {
        let head = escaped_byte(payload[0]);
        let rest = escaped(payload.skip(1));
        lemma_escaped_has_no_marker(payload.skip(1));
        assert forall|i: int| 0 <= i < escaped(payload).len() implies escaped(payload)[i]
            != LAST by {
            if i >= head.len() {
                assert(escaped(payload)[i] == rest[i - head.len()]);
            }
        }
    }
}

/// Unescaping gives back the payload that was escaped.
pub proof fn lemma_unescape_escaped(payload: Seq<u8>)
    ensures
        unescaped(escaped(payload)) == Some(payload),
    decreases payload.len(),
{
    if payload.len() > 0 {
        let b = payload[0];
        let rest = payload.skip(1);
        lemma_unescape_escaped(rest);
        let body = escaped(payload);
        assert(body == escaped_byte(b) + escaped(rest));
        if b == LAST || b == ESC {
            assert(body.skip(2) =~= escaped(rest));
        } else {
            assert(body.skip(1) =~= escaped(rest));
        }
        assert(seq![b] + rest =~= payload);
    }
}

/// The end marker occurs in a frame exactly once, as its last byte.
pub proof fn lemma_sealed_marker_only_last(payload: Seq<u8>)
    ensures
        sealed(payload).len() >= 1,
        sealed(payload).last() == LAST,
        forall|i: int| 0 <= i < sealed(payload).len() - 1 ==> sealed(payload)[i] != LAST,
{
    lemma_escaped_has_no_marker(payload);
}

/// Opening the frame of a payload gives that payload back.
pub proof fn lemma_open_sealed(payload: Seq<u8>)
    ensures
        opened(sealed(payload)) == Some(payload),
{
    lemma_unescape_escaped(payload);
    assert(sealed(payload).drop_last() =~= escaped(payload));
}

/// Escaping gives back the body that was unescaped: a payload has one body.
pub proof fn lemma_escape_unescaped(body: Seq<u8>)
    requires
        unescaped(body) is Some,
    ensures
        escaped(unescaped(body)->0) == body,
    decreases body.len(),
{
    if body.len() > 0 {
        let payload = unescaped(body)->0;
        if body[0] == ESC {
            let rest = unescaped(body.skip(2))->0;
            lemma_escape_unescaped(body.skip(2));
            assert(payload.skip(1) =~= rest);
            assert(escaped_byte(payload[0]) + body.skip(2) =~= body);
        } else {
            let rest = unescaped(body.skip(1))->0;
            lemma_escape_unescaped(body.skip(1));
            assert(payload.skip(1) =~= rest);
            assert(escaped_byte(payload[0]) + body.skip(1) =~= body);
        }
    }
}

/// Sealing the payload of a frame gives that frame back: no two frames
/// carry the same payload.
pub proof fn law_seal_opened(frame: Seq<u8>)
    requires
        opened(frame) is Some,
    ensures
        sealed(opened(frame)->0) == frame,
{
    lemma_escape_unescaped(frame.drop_last());
    assert(frame.drop_last().push(LAST) =~= frame);
}

/// Builds the frame of `payload`.
pub fn seal(payload: &[u8]) -> (frame: Vec<u8>)
    ensures
        frame@ == sealed(payload@),
{
    let mut out: Vec<u8> = Vec::new();
    let mut i: usize = 0;
    assert(payload@.skip(0) =~= payload@);
    while i < payload.len()
        invariant
            i <= payload.len(),
            escaped(payload@) == out@ + escaped(payload@.skip(i as int)),
        decreases payload.len() - i,
    {
        let b = payload[i];
        let ghost before = out@;
        let ghost tail = payload@.skip(i as int);
        assert(tail.skip(1) =~= payload@.skip(i + 1));
        assert(tail[0] == b);
        if b == LAST {
            out.push(ESC);
            out.push(ESC_LAST);
        } else if b == ESC {
            out.push(ESC);
            out.push(ESC_ESC);
        } else {
            out.push(b);
        }
        assert(out@ =~= before + escaped_byte(b));
        assert(before + (escaped_byte(b) + escaped(tail.skip(1))) =~= (before + escaped_byte(b))
            + escaped(tail.skip(1)));
        i += 1;
    }
    assert(out@ + Seq::<u8>::empty() =~= out@);
    out.push(LAST);
    out
}

/// Reads the payload out of a frame.
///
/// Fails exactly where the bytes are no frame.
pub fn open(frame: &[u8]) -> (payload: Option<Vec<u8>>)
    ensures
        match payload {
            Some(p) => opened(frame@) == Some(p@),
            None => opened(frame@) is None,
        },
{
    let n = frame.len();
    if n == 0 || frame[n - 1] != LAST {
        return None;
    }
    let end: usize = n - 1;
    let ghost body = frame@.drop_last();
    let mut out: Vec<u8> = Vec::new();
    let mut i: usize = 0;
    assert(body.skip(0) =~= body);
    assert(Seq::<u8>::empty() + body =~= body);
    while i < end
        invariant
            i <= end,
            end + 1 == frame.len(),
            frame@.last() == LAST,
            body == frame@.drop_last(),
            unescaped(body) == match unescaped(body.skip(i as int)) {
                Some(rest) => Some(out@ + rest),
                None => None,
            },
        decreases end - i,
    {
        let b = frame[i];
        let ghost before = out@;
        let ghost tail = body.skip(i as int);
        assert(tail[0] == b);
        if b == LAST {
            return None;
        } else if b == ESC {
            if i + 1 >= end {
                return None;
            }
            let c = frame[i + 1];
            assert(tail[1] == c);
            assert(tail.skip(2) =~= body.skip(i + 2));
            if c == ESC_LAST {
                out.push(LAST);
            } else if c == ESC_ESC {
                out.push(ESC);
            } else {
                return None;
            }
            assert forall|rest: Seq<u8>| before + (seq![out@.last()] + rest) == out@ + rest by {
                assert(before + (seq![out@.last()] + rest) =~= out@ + rest);
            }
            i += 2;
        } else {
            assert(tail.skip(1) =~= body.skip(i + 1));
            out.push(b);
            assert forall|rest: Seq<u8>| before + (seq![b] + rest) == out@ + rest by {
                assert(before + (seq![b] + rest) =~= out@ + rest);
            }
            i += 1;
        }
    }
    assert(out@ + Seq::<u8>::empty() =~= out@);
    Some(out)
}

} // verus!
