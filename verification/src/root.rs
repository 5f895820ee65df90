//! The root: the one directory of the server below which every path of a
//! request or an answer lies.

use vstd::prelude::*;
use vstd::slice::slice_subrange;
use vstd::string::StrSliceExecFns;
use vstd::string::StringExecFns;
use crate::path::{check_stays_below, chars_of, is_absolute, stays_below};
use crate::Failure;

verus! {

/// An absolute directory, kept with a separator at its end.
pub struct Root {
    prefix: String,
    chars: Vec<char>,
}

/// What a root's directory is kept as: the directory itself where it ends
/// in a separator, else the directory and a separator.
pub open spec fn as_prefix(dir: Seq<char>) -> Seq<char> {
    if dir.len() > 0 && dir.last() == '/' {
        dir
    } else {
        dir.push('/')
    }
}

impl Root {
    #[verifier::type_invariant]
    spec fn well_formed(&self) -> bool {
        &&& self.chars@ == self.prefix@
        &&& is_absolute(self.prefix@)
        &&& self.prefix@.last() == '/'
    }

    /// The root directory, with a separator at its end.
    pub closed spec fn prefix(&self) -> Seq<char> {
        self.prefix@
    }

    /// What holds of every root that `new` makes: its directory is absolute
    /// and ends in a separator.
    pub open spec fn valid(&self) -> bool {
        is_absolute(self.prefix()) && self.prefix().last() == '/'
    }

    /// The absolute path that a relative path names under this root, or
    /// `None` where the relative path does not stay below the root.
    pub open spec fn resolved(&self, rel: Seq<char>) -> Option<Seq<char>> {
        if stays_below(rel) {
            Some(self.prefix() + rel)
        } else {
            None
        }
    }

    /// The path relative to this root that names the absolute path, or
    /// `None` where the absolute path does not lie below the root.
    pub open spec fn stripped(&self, abs: Seq<char>) -> Option<Seq<char>> {
        let n = self.prefix().len() as int;
        if abs.len() >= n && abs.take(n) == self.prefix() && stays_below(abs.skip(n)) {
            Some(abs.skip(n))
        } else {
            None
        }
    }

    /// Makes a root of an absolute directory; no other path is a root.
    pub fn new(dir: &str) -> (root: Option<Root>)
        ensures
            match root {
                Some(r) => is_absolute(dir@) && r.prefix() == as_prefix(dir@) && r.valid(),
                None => !is_absolute(dir@),
            },
    {
        let mut chars = chars_of(dir);
        if chars.len() == 0 || chars[0] != '/' {
            return None;
        }
        let mut prefix = dir.to_owned();
        if chars[chars.len() - 1] != '/' {
            proof {
                reveal_strlit("/");
                assert("/"@ =~= seq!['/']);
            }
            prefix.append("/");
            chars.push('/');
            assert(prefix@ =~= dir@.push('/'));
        }
        assert(chars@ == prefix@);
        assert(prefix@ == as_prefix(dir@));
        Some(Root { prefix, chars })
    }

    /// The root directory: an absolute path with a separator at its end.
    pub fn dir(&self) -> (dir: &str)
        ensures
            dir@ == self.prefix(),
            is_absolute(dir@),
            dir@.last() == '/',
    {
        proof {
            use_type_invariant(self);
        }
        self.prefix.as_str()
    }

    /// Resolves a relative path under the root.
    ///
    /// Fails with `OutsideRoot` exactly where the path is absolute, or
    /// somewhere along it `..` leads above the root.
    pub fn resolve(&self, rel: &str) -> (abs: Result<String, Failure>)
        ensures
            match abs {
                Ok(a) => self.resolved(rel@) == Some(a@),
                Err(e) => e == Failure::OutsideRoot && self.resolved(rel@) is None,
            },
    {
        let chars = chars_of(rel);
        if check_stays_below(chars.as_slice()) {
            let mut abs = self.prefix.clone();
            abs.append(rel);
            Ok(abs)
        } else {
            Err(Failure::OutsideRoot)
        }
    }

    /// Makes an absolute path relative to the root.
    ///
    /// Fails with `OutsideRoot` exactly where the path does not start with
    /// the root, or what follows the root does not stay below it.
    pub fn strip(&self, abs: &str) -> (rel: Result<String, Failure>)
        ensures
            match rel {
                Ok(r) => self.stripped(abs@) == Some(r@),
                Err(e) => e == Failure::OutsideRoot && self.stripped(abs@) is None,
            },
    {
        proof {
            use_type_invariant(self);
        }
        let chars = chars_of(abs);
        let n = self.chars.len();
        if chars.len() < n {
            return Err(Failure::OutsideRoot);
        }
        let mut i: usize = 0;
        while i < n
            invariant
                i <= n,
                n == self.chars@.len(),
                n <= chars@.len(),
                chars@ == abs@,
                self.chars@ == self.prefix(),
                forall|k: int| 0 <= k < i ==> chars@[k] == self.chars@[k],
            decreases n - i,
        {
            if chars[i] != self.chars[i] {
                assert(chars@.take(n as int)[i as int] != self.chars@[i as int]);
                return Err(Failure::OutsideRoot);
            }
            i += 1;
        }
        assert(chars@.take(n as int) =~= self.chars@);
        let rest = slice_subrange(chars.as_slice(), n, chars.len());
        assert(rest@ =~= abs@.skip(n as int));
        if check_stays_below(rest) {
            Ok(abs.substring_char(n, chars.len()).to_owned())
        } else {
            Err(Failure::OutsideRoot)
        }
    }
}

/// Stripping the root from a resolved path gives the relative path back.
pub proof fn law_strip_resolved(root: Root, rel: Seq<char>)
    ensures
        root.resolved(rel) is Some ==> root.stripped(root.resolved(rel)->0) == Some(rel),
{
    let abs = root.prefix() + rel;
    let n = root.prefix().len() as int;
    assert(abs.take(n) =~= root.prefix());
    assert(abs.skip(n) =~= rel);
}

/// Resolving a stripped path gives the absolute path back: whatever `strip`
/// accepts lies below the root.
pub proof fn law_resolve_stripped(root: Root, abs: Seq<char>)
    ensures
        root.stripped(abs) is Some ==> root.resolved(root.stripped(abs)->0) == Some(abs),
{
    let n = root.prefix().len() as int;
    if root.stripped(abs) is Some {
        assert(abs.take(n) + abs.skip(n) =~= abs);
    }
}

/// No absolute path resolves, and none that leads above the root; what
/// resolves starts with the root.
pub proof fn law_escape_is_refused(root: Root, rel: Seq<char>)
    ensures
        !stays_below(rel) ==> root.resolved(rel) is None,
        root.resolved(rel) is Some ==> root.resolved(rel)->0.len() >= root.prefix().len()
            && root.resolved(rel)->0.take(root.prefix().len() as int) == root.prefix(),
{
    let abs = root.prefix() + rel;
    assert(abs.take(root.prefix().len() as int) =~= root.prefix());
}

} // verus!
