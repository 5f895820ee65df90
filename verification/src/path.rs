//! Paths as texts: which relative paths stay below a root, how a relative
//! path is resolved under the root and an absolute one is made relative
//! again, and the name of the file that a path ends in.

use vstd::prelude::*;
use vstd::std_specs::iter::IteratorSpec;
use vstd::string::StringExecFns;
use vstd::string::StrSliceExecFns;

verus! {

/// The characters of a text, in order.
pub fn chars_of(text: &str) -> (chars: Vec<char>)
    ensures
        chars@ == text@,
{
    broadcast use vstd::string::group_string_axioms;

    let mut chars: Vec<char> = Vec::new();
    let mut rest = text.chars();
    loop
        invariant
            chars@ + rest.remaining() == text@,
            rest.decrease() is Some,
        decreases rest.decrease()->0,
    {
        let ghost before = rest;
        match rest.next() {
            Some(c) => {
                assert(before.remaining() =~= seq![c] + rest.remaining());
                chars.push(c);
                assert(chars@ + rest.remaining() =~= text@);
            },
            None => {
                assert(chars@ + rest.remaining() =~= chars@);
                return chars;
            },
        }
    }
}

/// The path starts at the root of the file system.
pub open spec fn is_absolute(path: Seq<char>) -> bool {
    path.len() > 0 && path[0] == '/'
}

/// The components of a path: what stands between its separators, in order.
/// A path without a separator is its one component.
pub open spec fn components(path: Seq<char>) -> Seq<Seq<char>>
    decreases path.len(),
{
    if path.len() == 0 {
        seq![Seq::empty()]
    } else if path.last() == '/' {
        components(path.drop_last()).push(Seq::empty())
    } else {
        let before = components(path.drop_last());
        before.drop_last().push(before.last().push(path.last()))
    }
}

/// Where a component leads: `..` one directory up, `.` and the empty
/// component nowhere, any other one directory down.
pub open spec fn weight(component: Seq<char>) -> int {
    if component == seq!['.', '.'] {
        -1
    } else if component.len() == 0 || component == seq!['.'] {
        0
    } else {
        1
    }
}

/// How many directories below its start the walk along the components ends.
pub open spec fn depth(components: Seq<Seq<char>>) -> int
    decreases components.len(),
{
    if components.len() == 0 {
        0
    } else {
        depth(components.drop_last()) + weight(components.last())
    }
}

/// After some component, the walk along the path is above its start.
pub open spec fn climbs_out(path: Seq<char>) -> bool {
    exists|k: int|
        0 <= k <= components(path).len() && depth(#[trigger] components(path).take(k)) < 0
}

/// A relative path stays below the directory it is joined to where it is
/// not absolute and the walk along its components is nowhere above its
/// start: `a/../b` stays below, `a/../../b` does not.
pub open spec fn stays_below(path: Seq<char>) -> bool {
    !is_absolute(path) && !climbs_out(path)
}

/// The path without the separators at its end.
pub open spec fn trimmed(path: Seq<char>) -> Seq<char>
    decreases path.len(),
{
    if path.len() > 0 && path.last() == '/' {
        trimmed(path.drop_last())
    } else {
        path
    }
}

/// What follows the last separator of the path: the whole path where it has
/// none, nothing where it ends in one.
pub open spec fn last_component(path: Seq<char>) -> Seq<char>
    decreases path.len(),
{
    if path.len() == 0 || path.last() == '/' {
        Seq::empty()
    } else {
        last_component(path.drop_last()).push(path.last())
    }
}

/// The name of the entry that the path ends in: its last component,
/// separators at the end left aside. A path that is empty, is made of
/// separators, or ends in `.` or `..` has none.
pub open spec fn file_name(path: Seq<char>) -> Option<Seq<char>> {
    let name = last_component(trimmed(path));
    if name.len() == 0 || name == seq!['.'] || name == seq!['.', '.'] {
        None
    } else {
        Some(name)
    }
}

/// The index of the last dot of a name, or -1 where it has none.
pub open spec fn last_dot(name: Seq<char>) -> int
    decreases name.len(),
{
    if name.len() == 0 {
        -1
    } else if name.last() == '.' {
        name.len() - 1
    } else {
        last_dot(name.drop_last())
    }
}

/// The path with the extension of its file name replaced by `ext`, or added
/// where the name has none. A dot that starts the name starts no extension.
/// `None` where the path has no file name.
pub open spec fn with_extension(path: Seq<char>, ext: Seq<char>) -> Option<Seq<char>> {
    match file_name(path) {
        None => None,
        Some(name) => {
            let end = trimmed(path).len() as int;
            let dot = last_dot(name);
            let keep = if dot > 0 {
                end - name.len() + dot
            } else {
                end
            };
            Some(path.take(keep) + seq!['.'] + ext)
        },
    }
}

/// The path of the entry `name` in the directory `dir`.
pub open spec fn joined(dir: Seq<char>, name: Seq<char>) -> Seq<char> {
    if dir.len() == 0 || dir.last() == '/' {
        dir + name
    } else {
        dir + seq!['/'] + name
    }
}

/// Where a component of the given length leads, that holds dots only or
/// not.
fn weight_of(length: usize, dots: bool) -> (w: i128)
    ensures
        forall|component: Seq<char>|
            component.len() == length && dots == (forall|j: int|
                0 <= j < component.len() ==> component[j] == '.') ==> w == weight(component),
        -1 <= w <= 1,
{
    let w: i128 = if dots && length == 2 {
        -1
    } else if length == 0 || (dots && length == 1) {
        0
    } else {
        1
    };
    assert forall|component: Seq<char>|
        component.len() == length && dots == (forall|j: int|
            0 <= j < component.len() ==> component[j] == '.') implies w == weight(component) by {
        if component == seq!['.', '.'] {
            assert(component.len() == 2);
            assert forall|j: int| 0 <= j < component.len() implies component[j] == '.' by {
                assert(seq!['.', '.'][j] == '.');
            }
        } else if component == seq!['.'] {
            assert(component.len() == 1);
            assert forall|j: int| 0 <= j < component.len() implies component[j] == '.' by {
                assert(seq!['.'][j] == '.');
            }
        } else if dots && length == 2 {
            assert(component[0] == '.' && component[1] == '.');
            assert(component =~= seq!['.', '.']);
        } else if dots && length == 1 {
            assert(component[0] == '.');
            assert(component =~= seq!['.']);
        }
    }
    w
}

/// Tells whether a relative path stays below the directory it is joined to.
pub fn check_stays_below(path: &[char]) -> (ok: bool)
    ensures
        ok == stays_below(path@),
{
    let n = path.len();
    if n > 0 && path[0] == '/' {
        return false;
    }
    let mut below: i128 = 0;
    let mut length: usize = 0;
    let mut dots: bool = true;
    let mut out: bool = false;
    let mut i: usize = 0;
    proof {
        let cs = components(path@.take(0));
        assert(path@.take(0) =~= Seq::<char>::empty());
        assert(cs.drop_last() =~= Seq::<Seq<char>>::empty());
        assert forall|k: int| 0 <= k < cs.len() implies !(depth(#[trigger] cs.take(k)) < 0) by {
            assert(cs.take(k) =~= Seq::<Seq<char>>::empty());
        }
    }
    while i < n
        invariant
            i <= n,
            n == path@.len(),
            components(path@.take(i as int)).len() >= 1,
            below == depth(components(path@.take(i as int)).drop_last()),
            -(i as int) <= below <= i,
            length == components(path@.take(i as int)).last().len(),
            length <= i,
            dots == (forall|j: int|
                0 <= j < components(path@.take(i as int)).last().len() ==> components(
                    path@.take(i as int),
                ).last()[j] == '.'),
            out == (exists|k: int|
                0 <= k < components(path@.take(i as int)).len() && depth(
                    #[trigger] components(path@.take(i as int)).take(k),
                ) < 0),
        decreases n - i,
    {
        let ghost cs = components(path@.take(i as int));
        let ghost next = components(path@.take(i + 1));
        let c = path[i];
        assert(path@.take(i + 1).drop_last() =~= path@.take(i as int));
        if c == '/' {
            let w = weight_of(length, dots);
            proof {
                assert(next == cs.push(Seq::<char>::empty()));
                assert(next.drop_last() =~= cs);
                assert(w == weight(cs.last()));
                assert forall|k: int| 0 <= k < cs.len() implies next.take(k) == cs.take(k) by {
                    assert(next.take(k) =~= cs.take(k));
                }
                assert(next.take(cs.len() as int) =~= cs);
                assert(next.last().len() == 0);
            }
            below = below + w;
            if below < 0 {
                out = true;
            }
            length = 0;
            dots = true;
            proof {
                if out {
                    if depth(cs) < 0 {
                        assert(depth(next.take(cs.len() as int)) < 0);
                    } else {
                        let k = choose|k: int| 0 <= k < cs.len() && depth(#[trigger] cs.take(k)) < 0;
                        assert(depth(next.take(k)) < 0);
                    }
                } else {
                    assert forall|k: int| 0 <= k < next.len() implies !(depth(
                        #[trigger] next.take(k),
                    ) < 0) by {
                        if k < cs.len() {
                            assert(next.take(k) == cs.take(k));
                        }
                    }
                }
            }
        } else {
            proof {
                let last = cs.last().push(c);
                assert(next == cs.drop_last().push(last));
                assert(next.drop_last() =~= cs.drop_last());
                assert forall|k: int| 0 <= k < next.len() implies next.take(k) == cs.take(k) by {
                    assert(next.take(k) =~= cs.take(k));
                }
                if out {
                    let k = choose|k: int| 0 <= k < cs.len() && depth(#[trigger] cs.take(k)) < 0;
                    assert(depth(next.take(k)) < 0);
                }
                assert(next.last() == last);
                if c == '.' && dots {
                    assert forall|j: int| 0 <= j < next.last().len() implies next.last()[j]
                        == '.' by {
                        if j < cs.last().len() {
                            assert(last[j] == cs.last()[j]);
                        }
                    }
                } else if c != '.' {
                    assert(next.last()[last.len() - 1] != '.');
                } else {
                    let j = choose|j: int| 0 <= j < cs.last().len() && cs.last()[j] != '.';
                    assert(next.last()[j] != '.');
                }
            }
            length += 1;
            if c != '.' {
                dots = false;
            }
        }
        i += 1;
    }
    let w = weight_of(length, dots);
    proof {
        let cs = components(path@);
        assert(path@.take(n as int) =~= path@);
        assert(cs.take(cs.len() as int) =~= cs);
        if out {
            let k = choose|k: int| 0 <= k < cs.len() && depth(#[trigger] cs.take(k)) < 0;
            assert(climbs_out(path@));
        } else if below + w < 0 {
            assert(depth(cs.take(cs.len() as int)) < 0);
            assert(climbs_out(path@));
        } else {
            assert forall|k: int| 0 <= k <= cs.len() implies !(depth(#[trigger] cs.take(k)) < 0) by {
                if k == cs.len() {
                    assert(cs.take(k) == cs);
                }
            }
        }
    }
    !out && below + w >= 0
}

/// Where the file name of a path would start and end: `end` leaves the
/// separators at the path's end aside, and `start` follows the last
/// separator before `end`.
fn name_span(path: &[char]) -> (span: (usize, usize))
    ensures
        span.0 <= span.1 <= path@.len(),
        trimmed(path@) == path@.take(span.1 as int),
        last_component(trimmed(path@)) == path@.subrange(span.0 as int, span.1 as int),
{
    let mut end: usize = path.len();
    assert(path@.take(end as int) =~= path@);
    while end > 0 && path[end - 1] == '/'
        invariant
            end <= path@.len(),
            trimmed(path@) == trimmed(path@.take(end as int)),
        decreases end,
    {
        assert(path@.take(end as int).drop_last() =~= path@.take(end - 1));
        end -= 1;
    }
    let ghost whole = path@.take(end as int);
    let mut start: usize = end;
    assert(whole.take(start as int) =~= whole);
    assert(last_component(whole) + whole.subrange(start as int, end as int) =~= last_component(
        whole,
    ));
    while start > 0 && path[start - 1] != '/'
        invariant
            start <= end <= path@.len(),
            whole == path@.take(end as int),
            last_component(whole) == last_component(whole.take(start as int)) + whole.subrange(
                start as int,
                end as int,
            ),
        decreases start,
    {
        let ghost head = whole.take(start as int);
        assert(head.drop_last() =~= whole.take(start - 1));
        assert(last_component(head.drop_last()).push(head.last()) + whole.subrange(
            start as int,
            end as int,
        ) =~= last_component(head.drop_last()) + whole.subrange(start - 1, end as int));
        start -= 1;
    }
    assert(last_component(whole.take(start as int)) =~= Seq::<char>::empty());
    assert(Seq::<char>::empty() + whole.subrange(start as int, end as int) =~= path@.subrange(
        start as int,
        end as int,
    ));
    (start, end)
}

/// Tells whether the characters from `start` to `end` are a file name.
fn is_name(path: &[char], start: usize, end: usize) -> (ok: bool)
    requires
        start <= end <= path@.len(),
    ensures
        ok == {
            let name = path@.subrange(start as int, end as int);
            !(name.len() == 0 || name == seq!['.'] || name == seq!['.', '.'])
        },
{
    let ghost name = path@.subrange(start as int, end as int);
    let len = end - start;
    if len == 0 {
        false
    } else if len == 1 && path[start] == '.' {
        assert(name =~= seq!['.']);
        false
    } else if len == 2 && path[start] == '.' && path[start + 1] == '.' {
        assert(name =~= seq!['.', '.']);
        false
    } else {
        assert(name != seq!['.']) by {
            if name == seq!['.'] {
                assert(name.len() == 1 && name[0] == '.');
            }
        }
        assert(name != seq!['.', '.']) by {
            if name == seq!['.', '.'] {
                assert(name.len() == 2 && name[0] == '.' && name[1] == '.');
            }
        }
        true
    }
}

/// The file name of a path, if it has one.
pub fn file_name_of(path: &str) -> (name: Option<String>)
    ensures
        match name {
            Some(n) => file_name(path@) == Some(n@),
            None => file_name(path@) is None,
        },
{
    let chars = chars_of(path);
    let (start, end) = name_span(chars.as_slice());
    if is_name(chars.as_slice(), start, end) {
        Some(path.substring_char(start, end).to_owned())
    } else {
        None
    }
}

/// The path with the extension of its file name replaced by `ext`, if the
/// path has a file name.
pub fn with_extension_of(path: &str, ext: &str) -> (changed: Option<String>)
    ensures
        match changed {
            Some(c) => with_extension(path@, ext@) == Some(c@),
            None => with_extension(path@, ext@) is None,
        },
{
    let chars = chars_of(path);
    let (start, end) = name_span(chars.as_slice());
    if !is_name(chars.as_slice(), start, end) {
        return None;
    }
    let ghost name = chars@.subrange(start as int, end as int);
    let mut dot: usize = end;
    assert(name.take(dot - start) =~= name);
    while dot > start && chars[dot - 1] != '.'
        invariant
            start <= dot <= end <= chars@.len(),
            name == chars@.subrange(start as int, end as int),
            last_dot(name) == last_dot(name.take(dot - start)),
        decreases dot,
    {
        assert(name.take(dot - start).drop_last() =~= name.take(dot - 1 - start));
        dot -= 1;
    }
    let keep = if dot > start + 1 {
        dot - 1
    } else {
        end
    };
    proof {
        reveal_strlit(".");
        assert("."@ =~= seq!['.']);
        if dot > start {
            assert(name.take(dot - start).last() == '.');
        }
        assert(path@.subrange(0, keep as int) =~= path@.take(keep as int));
    }
    let mut changed = path.substring_char(0, keep).to_owned();
    changed.append(".");
    changed.append(ext);
    Some(changed)
}

/// The path of the entry `name` in the directory `dir`.
pub fn join(dir: &str, name: &str) -> (path: String)
    ensures
        path@ == joined(dir@, name@),
{
    let chars = chars_of(dir);
    let mut path = dir.to_owned();
    if chars.len() > 0 && chars[chars.len() - 1] != '/' {
        proof {
            reveal_strlit("/");
            assert("/"@ =~= seq!['/']);
        }
        path.append("/");
    }
    path.append(name);
    path
}

/// A name is plain where it is not empty, holds no separator, and is not
/// `..`.
pub open spec fn plain_name(name: Seq<char>) -> bool {
    &&& name.len() > 0
    &&& forall|j: int| 0 <= j < name.len() ==> name[j] != '/'
    &&& name != seq!['.', '.']
}

/// The last component of a path holds no separator and is no longer than
/// the path.
pub proof fn lemma_last_component_shape(path: Seq<char>)
    ensures
        last_component(path).len() <= path.len(),
        forall|j: int| 0 <= j < last_component(path).len() ==> last_component(path)[j] != '/',
        last_component(path) == path.skip(path.len() - last_component(path).len()),
    decreases path.len(),
{
    if path.len() > 0 && path.last() != '/' {
        lemma_last_component_shape(path.drop_last());
        let before = last_component(path.drop_last());
        assert(before.push(path.last()) =~= path.skip(path.len() - before.len() - 1));
    } else {
        assert(last_component(path) =~= path.skip(path.len() as int));
    }
}

/// Every path has a component.
pub proof fn lemma_components_exist(path: Seq<char>)
    ensures
        components(path).len() >= 1,
    decreases path.len(),
{
    if path.len() > 0 {
        lemma_components_exist(path.drop_last());
    }
}

/// What is put behind a path without a separator in it becomes part of the
/// path's last component.
pub proof fn lemma_components_grow(path: Seq<char>, tail: Seq<char>)
    requires
        forall|j: int| 0 <= j < tail.len() ==> tail[j] != '/',
    ensures
        components(path).len() >= 1,
        components(path + tail) == components(path).drop_last().push(
            components(path).last() + tail,
        ),
    decreases tail.len(),
{
    lemma_components_exist(path);
    let known = components(path);
    if tail.len() == 0 {
        assert(path + tail =~= path);
        assert(known.last() + tail =~= known.last());
        assert(known.drop_last().push(known.last()) =~= known);
    } else {
        let shorter = tail.drop_last();
        lemma_components_grow(path, shorter);
        let whole = path + tail;
        assert(whole.drop_last() =~= path + shorter);
        assert(whole.last() == tail.last());
        let before = components(path + shorter);
        assert(before.drop_last() =~= known.drop_last());
        assert(before.last().push(tail.last()) =~= known.last() + tail);
    }
}

/// Whatever is put behind a path, its components but the last stay, in
/// their places.
pub proof fn lemma_components_stay(path: Seq<char>, tail: Seq<char>)
    ensures
        1 <= components(path).len() <= components(path + tail).len(),
        components(path + tail).take(components(path).len() - 1) == components(path).drop_last(),
    decreases tail.len(),
{
    lemma_components_exist(path);
    let known = components(path);
    if tail.len() == 0 {
        assert(path + tail =~= path);
        assert(known.take(known.len() - 1) =~= known.drop_last());
    } else {
        let shorter = tail.drop_last();
        lemma_components_stay(path, shorter);
        let whole = path + tail;
        assert(whole.drop_last() =~= path + shorter);
        let before = components(path + shorter);
        let after = components(whole);
        assert(after.take(known.len() - 1) =~= before.take(known.len() - 1));
    }
}

/// Trimming a path leaves a part of its start.
pub proof fn lemma_trimmed_shape(path: Seq<char>)
    ensures
        trimmed(path).len() <= path.len(),
        trimmed(path) == path.take(trimmed(path).len() as int),
    decreases path.len(),
{
    if path.len() > 0 && path.last() == '/' {
        lemma_trimmed_shape(path.drop_last());
        assert(path.drop_last().take(trimmed(path).len() as int) =~= path.take(
            trimmed(path).len() as int,
        ));
    } else {
        assert(path.take(path.len() as int) =~= path);
    }
}

/// The last dot of a name lies inside the name.
pub proof fn lemma_last_dot_shape(name: Seq<char>)
    ensures
        -1 <= last_dot(name) < name.len(),
        last_dot(name) >= 0 ==> name[last_dot(name)] == '.',
    decreases name.len(),
{
    if name.len() > 0 && name.last() != '.' {
        lemma_last_dot_shape(name.drop_last());
    }
}

/// The file name of a path is a plain name.
pub proof fn lemma_file_name_is_plain(path: Seq<char>)
    requires
        file_name(path) is Some,
    ensures
        plain_name(file_name(path)->0),
{
    lemma_last_component_shape(trimmed(path));
}

/// An entry with a plain name, in a directory that stays below, stays below.
pub proof fn lemma_joined_stays_below(dir: Seq<char>, name: Seq<char>)
    requires
        stays_below(dir),
        plain_name(name),
    ensures
        stays_below(joined(dir, name)),
{
    let known = components(dir);
    let whole = components(joined(dir, name));
    lemma_components_exist(dir);
    let kept = if dir.len() == 0 || dir.last() == '/' {
        known.drop_last()
    } else {
        known
    };
    if dir.len() == 0 || dir.last() == '/' {
        lemma_components_grow(dir, name);
        assert(known.last() + name =~= name);
    } else {
        assert(dir.push('/').drop_last() =~= dir);
        lemma_components_grow(dir.push('/'), name);
        assert(dir.push('/') + name =~= dir + seq!['/'] + name);
        assert(known.push(Seq::<char>::empty()).drop_last() =~= known);
        assert(Seq::<char>::empty() + name =~= name);
    }
    assert(whole == kept.push(name));
    assert(weight(name) >= 0) by {
        if name == seq!['.', '.'] {
            assert(false);
        }
    }
    assert forall|k: int| 0 <= k <= whole.len() implies !(depth(#[trigger] whole.take(k)) < 0) by {
        if k <= kept.len() {
            assert(whole.take(k) =~= known.take(k));
        } else {
            assert(whole.take(k) =~= whole);
            assert(whole.drop_last() =~= kept);
            assert(kept =~= known.take(kept.len() as int));
        }
    }
    assert(joined(dir, name)[0] != '/') by {
        if dir.len() == 0 {
            assert(joined(dir, name) =~= name);
        }
    }
}

/// Joining below a directory that ends in a separator is joining, then
/// putting the directory in front.
pub proof fn lemma_joined_below(prefix: Seq<char>, dir: Seq<char>, name: Seq<char>)
    requires
        prefix.len() > 0,
        prefix.last() == '/',
    ensures
        joined(prefix + dir, name) == prefix + joined(dir, name),
{
    let whole = prefix + dir;
    if dir.len() == 0 {
        assert(whole =~= prefix);
        assert(prefix + name =~= prefix + (dir + name));
    } else {
        assert(whole.last() == dir.last());
        if dir.last() == '/' {
            assert(whole + name =~= prefix + (dir + name));
        } else {
            assert(whole + seq!['/'] + name =~= prefix + (dir + seq!['/'] + name));
        }
    }
}

/// A path that stays below still does so with another extension, where the
/// extension is not empty and holds neither a separator nor a dot.
pub proof fn lemma_with_extension_stays_below(path: Seq<char>, ext: Seq<char>)
    requires
        stays_below(path),
        with_extension(path, ext) is Some,
        ext.len() > 0,
        forall|j: int| 0 <= j < ext.len() ==> ext[j] != '/' && ext[j] != '.',
    ensures
        stays_below(with_extension(path, ext)->0),
{
    let name = file_name(path)->0;
    let end = trimmed(path).len() as int;
    let start = end - name.len();
    let dot = last_dot(name);
    let keep = if dot > 0 {
        start + dot
    } else {
        end
    };
    lemma_trimmed_shape(path);
    lemma_last_component_shape(trimmed(path));
    lemma_last_dot_shape(name);
    let changed = with_extension(path, ext)->0;
    let head = path.take(start);
    let renamed = changed.skip(start);
    assert(0 <= start <= keep <= end <= path.len());
    assert(changed == path.take(keep) + seq!['.'] + ext);
    assert(changed =~= head + renamed);
    assert(path =~= head + path.skip(start));
    assert forall|j: int| 0 <= j < renamed.len() implies renamed[j] != '/' by {
        if j < keep - start {
            assert(renamed[j] == path[start + j]);
            assert(name[j] == trimmed(path)[start + j]);
        } else if j > keep - start {
            assert(renamed[j] == ext[j - (keep - start) - 1]);
        }
    }
    lemma_components_grow(head, renamed);
    lemma_components_stay(head, path.skip(start));
    let known = components(head);
    let whole = components(changed);
    let last = known.last() + renamed;
    assert(whole == known.drop_last().push(last));
    assert(last.last() == ext.last());
    assert(weight(last) == 1) by {
        if last == seq!['.', '.'] || last == seq!['.'] {
            assert(last[last.len() - 1] == '.');
        }
    }
    assert forall|k: int| 0 <= k <= whole.len() implies !(depth(#[trigger] whole.take(k)) < 0) by {
        let kept = known.drop_last();
        if k < whole.len() {
            assert(whole.take(k) =~= components(path).take(k));
        } else {
            assert(whole.take(k) =~= whole);
            assert(whole.drop_last() =~= kept);
            assert(kept == components(path).take(kept.len() as int));
        }
    }
    assert(changed[0] != '/') by {
        if start > 0 {
            assert(changed[0] == path[0]);
        } else if keep > 0 {
            assert(changed[0] == renamed[0]);
        }
    }
}

} // verus!
