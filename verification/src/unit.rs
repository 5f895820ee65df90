//! Entries of the directory tree as they travel between client and server.

use vstd::prelude::*;
use vstd::seq_lib::{to_multiset_build, to_multiset_insert};
use crate::path::chars_of;

verus! {

/// What kind of entry a unit is. The order of the variants is the order in
/// which a listing is shown: directories, then media, then other files.
#[derive(Debug, Clone, Copy, PartialEq, Eq, Hash, PartialOrd, Ord, Structural)]
pub enum UnitKind {
    Directory,
    Video,
    Audio,
    File,
}

/// One entry below the root: its path relative to the root, and its kind.
#[derive(Debug, Clone, PartialEq, Eq, Hash)]
pub struct Unit {
    pub path: String,
    pub kind: UnitKind,
}

/// A unit as a mathematical value.
pub struct UnitView {
    pub path: Seq<char>,
    pub kind: UnitKind,
}

impl View for Unit {
    type V = UnitView;

    open spec fn view(&self) -> UnitView {
        UnitView { path: self.path@, kind: self.kind }
    }
}

/// The values of a list of units, in order.
pub open spec fn units_view(units: Seq<Unit>) -> Seq<UnitView> {
    Seq::new(units.len(), |i: int| units[i]@)
}

/// The values of a list of paths, in order.
pub open spec fn paths_view(paths: Seq<String>) -> Seq<Seq<char>> {
    Seq::new(paths.len(), |i: int| paths[i]@)
}

/// Tells whether two texts hold the same characters.
pub fn same_text(a: &str, b: &str) -> (same: bool)
    ensures
        same == (a@ == b@),
{
    let x = a.to_owned();
    let y = b.to_owned();
    x == y
}

/// Tells whether two lists of paths hold the same paths in the same order.
pub fn same_paths(a: &Vec<String>, b: &Vec<String>) -> (same: bool)
    ensures
        same == (paths_view(a@) == paths_view(b@)),
{
    if a.len() != b.len() {
        assert(paths_view(a@).len() != paths_view(b@).len());
        return false;
    }
    let mut i: usize = 0;
    while i < a.len()
        invariant
            i <= a.len(),
            a.len() == b.len(),
            forall|j: int| 0 <= j < i ==> a@[j]@ == b@[j]@,
        decreases a.len() - i,
    {
        if !same_text(a[i].as_str(), b[i].as_str()) {
            assert(paths_view(a@)[i as int] != paths_view(b@)[i as int]);
            return false;
        }
        i += 1;
    }
    assert(paths_view(a@) =~= paths_view(b@));
    true
}

/// Tells whether two lists of units hold the same units in the same order.
pub fn same_units(a: &Vec<Unit>, b: &Vec<Unit>) -> (same: bool)
    ensures
        same == (units_view(a@) == units_view(b@)),
{
    if a.len() != b.len() {
        assert(units_view(a@).len() != units_view(b@).len());
        return false;
    }
    let mut i: usize = 0;
    while i < a.len()
        invariant
            i <= a.len(),
            a.len() == b.len(),
            forall|j: int| 0 <= j < i ==> a@[j]@ == b@[j]@,
        decreases a.len() - i,
    {
        if !a[i].same(&b[i]) {
            assert(units_view(a@)[i as int] != units_view(b@)[i as int]);
            return false;
        }
        i += 1;
    }
    assert(units_view(a@) =~= units_view(b@));
    true
}

/// The place of a kind in a listing that is shown.
pub open spec fn kind_rank(kind: UnitKind) -> int {
    match kind {
        UnitKind::Directory => 0,
        UnitKind::Video => 1,
        UnitKind::Audio => 2,
        UnitKind::File => 3,
    }
}

/// The two texts agree before index `k`, and there `a` ends while `b` goes
/// on, or `a` has the smaller character.
pub open spec fn differs_at(a: Seq<char>, b: Seq<char>, k: int) -> bool {
    &&& 0 <= k <= a.len()
    &&& k <= b.len()
    &&& forall|j: int| 0 <= j < k ==> a[j] == b[j]
    &&& k < b.len()
    &&& (k == a.len() || (a[k] as int) < (b[k] as int))
}

/// Text `a` comes before text `b`, character by character.
pub open spec fn text_before(a: Seq<char>, b: Seq<char>) -> bool {
    exists|k: int| differs_at(a, b, k)
}

/// Unit `a` is shown before unit `b`: by kind first, then by path.
pub open spec fn unit_before(a: UnitView, b: UnitView) -> bool {
    kind_rank(a.kind) < kind_rank(b.kind) || (a.kind == b.kind && text_before(a.path, b.path))
}

/// Tells whether text `a` comes before text `b`.
pub fn text_precedes(a: &str, b: &str) -> (before: bool)
    ensures
        before == text_before(a@, b@),
{
    let x = chars_of(a);
    let y = chars_of(b);
    let mut k: usize = 0;
    while k < x.len() && k < y.len() && x[k] == y[k]
        invariant
            k <= x@.len(),
            k <= y@.len(),
            forall|j: int| 0 <= j < k ==> x@[j] == y@[j],
        decreases x@.len() - k,
    {
        k += 1;
    }
    let before = k < y.len() && (k == x.len() || x[k] < y[k]);
    proof {
        if before {
            assert(differs_at(x@, y@, k as int));
        } else {
            assert forall|i: int| !differs_at(x@, y@, i) by {
                if differs_at(x@, y@, i) {
                    if i < k {
                        assert(x@[i] == y@[i]);
                    } else if i > k {
                        assert(x@[k as int] == y@[k as int]);
                    }
                }
            }
        }
    }
    before
}

/// The place of a kind in a listing that is shown.
pub fn rank(kind: UnitKind) -> (r: u8)
    ensures
        r as int == kind_rank(kind),
{
    match kind {
        UnitKind::Directory => 0,
        UnitKind::Video => 1,
        UnitKind::Audio => 2,
        UnitKind::File => 3,
    }
}

impl Unit {
    /// Tells whether this unit and the other have the same path and kind.
    pub fn same(&self, other: &Unit) -> (same: bool)
        ensures
            same == (self@ == other@),
    {
        self.kind == other.kind && same_text(self.path.as_str(), other.path.as_str())
    }

    /// Tells whether this unit is shown before the other: directories, then
    /// video, then audio, then other files, and by path within one kind.
    pub fn shown_before(&self, other: &Unit) -> (before: bool)
        ensures
            before == unit_before(self@, other@),
    {
        let mine = rank(self.kind);
        let theirs = rank(other.kind);
        if mine != theirs {
            mine < theirs
        } else {
            text_precedes(self.path.as_str(), other.path.as_str())
        }
    }
}

/// No text comes before itself, and of two texts at most one comes before
/// the other.
pub proof fn lemma_text_before_one_way(a: Seq<char>, b: Seq<char>)
    ensures
        !(text_before(a, b) && text_before(b, a)),
        !text_before(a, a),
{
    if text_before(a, b) && text_before(b, a) {
        let k = choose|k: int| differs_at(a, b, k);
        let m = choose|m: int| differs_at(b, a, m);
        if k < m {
            assert(b[k] == a[k]);
        } else if m < k {
            assert(a[m] == b[m]);
        }
    }
    if text_before(a, a) {
        let k = choose|k: int| differs_at(a, a, k);
    }
}

/// Of two different texts one comes before the other.
pub proof fn lemma_text_before_total(a: Seq<char>, b: Seq<char>)
    requires
        a != b,
    ensures
        text_before(a, b) || text_before(b, a),
    decreases a.len(),
{
    if a.len() == 0 {
        assert(b.len() > 0) by {
            if b.len() == 0 {
                assert(a =~= b);
            }
        }
        assert(differs_at(a, b, 0));
    } else if b.len() == 0 {
        assert(differs_at(b, a, 0));
    } else if a[0] != b[0] {
        if (a[0] as int) < (b[0] as int) {
            assert(differs_at(a, b, 0));
        } else {

            assert(differs_at(b, a, 0));
        }
    } else {
        let x = a.skip(1);
        let y = b.skip(1);
        assert(x != y) by {
            if x == y {
                assert(a =~= seq![a[0]] + x);
                assert(b =~= seq![b[0]] + y);
            }
        }
        lemma_text_before_total(x, y);
        if text_before(x, y) {
            let k = choose|k: int| differs_at(x, y, k);
            assert forall|j: int| 0 <= j < k + 1 implies a[j] == b[j] by {
                if j > 0 {
                    assert(x[j - 1] == y[j - 1]);
                }
            }
            assert(differs_at(a, b, k + 1));
        } else {
            let k = choose|k: int| differs_at(y, x, k);
            assert forall|j: int| 0 <= j < k + 1 implies b[j] == a[j] by {
                if j > 0 {
                    assert(y[j - 1] == x[j - 1]);
                }
            }
            assert(differs_at(b, a, k + 1));
        }
    }
}

/// Where `a` comes before `b` and `b` before `c`, `a` comes before `c`.
pub proof fn lemma_text_before_transitive(a: Seq<char>, b: Seq<char>, c: Seq<char>)
    requires
        text_before(a, b),
        text_before(b, c),
    ensures
        text_before(a, c),
{
    let k = choose|k: int| differs_at(a, b, k);
    let m = choose|m: int| differs_at(b, c, m);
    let n = if k < m {
        k
    } else {
        m
    };
    assert forall|j: int| 0 <= j < n implies a[j] == c[j] by {
        assert(a[j] == b[j] && b[j] == c[j]);
    }
    if k < m {
        assert(b[k] == c[k]);
    } else if m < k {
        assert(a[m] == b[m]);
    }
    assert(differs_at(a, c, n));
}

/// The order in which units are shown is a strict total order: no unit
/// comes before itself, of two different units exactly one comes before the
/// other, and the order carries over a unit in between.
pub proof fn law_display_order(a: UnitView, b: UnitView, c: UnitView)
    ensures
        !unit_before(a, a),
        !(unit_before(a, b) && unit_before(b, a)),
        a != b ==> unit_before(a, b) || unit_before(b, a),
        unit_before(a, b) && unit_before(b, c) ==> unit_before(a, c),
{
    lemma_text_before_one_way(a.path, b.path);
    lemma_text_before_one_way(a.path, a.path);
    if a != b && a.kind == b.kind {
        lemma_text_before_total(a.path, b.path);
    }
    if unit_before(a, b) && unit_before(b, c) && a.kind == b.kind && b.kind == c.kind {
        lemma_text_before_transitive(a.path, b.path, c.path);
    }
}

/// The units stand in the order in which they are shown: none is shown
/// before a unit that stands before it.
pub open spec fn in_display_order(units: Seq<UnitView>) -> bool {
    forall|i: int, j: int| 0 <= i < j < units.len() ==> !unit_before(units[j], units[i])
}

/// Puts the units of a listing into the order in which they are shown.
///
/// What comes back holds the same units, each as often as before.
pub fn sort_for_display(units: Vec<Unit>) -> (sorted: Vec<Unit>)
    ensures
        in_display_order(units_view(sorted@)),
        units_view(sorted@).to_multiset() == units_view(units@).to_multiset(),
{
    broadcast use vstd::multiset::group_multiset_axioms;

    let ghost all = units_view(units@);
    let mut rest = units;
    let mut sorted: Vec<Unit> = Vec::new();
    assert(units_view(sorted@).to_multiset().add(all.to_multiset()) =~= all.to_multiset()) by {
        units_view(sorted@).to_multiset_ensures();
    }
    loop
        invariant
            all == units_view(units@),
            in_display_order(units_view(sorted@)),
            units_view(sorted@).to_multiset().add(units_view(rest@).to_multiset())
                == all.to_multiset(),
        decreases rest@.len(),
    {
        let ghost rest_before = units_view(rest@);
        let ghost sorted_before = units_view(sorted@);
        let unit = match rest.pop() {
            Some(unit) => unit,
            None => {
                assert(units_view(rest@) =~= Seq::<UnitView>::empty());
                assert(sorted_before.to_multiset().add(units_view(rest@).to_multiset())
                    =~= sorted_before.to_multiset()) by {
                    units_view(rest@).to_multiset_ensures();
                }
                return sorted;
            },
        };
        let mut k: usize = 0;
        while k < sorted.len() && !unit.shown_before(&sorted[k])
            invariant
                k <= sorted@.len(),
                forall|i: int| 0 <= i < k ==> !unit_before(unit@, #[trigger] sorted@[i]@),
            decreases sorted@.len() - k,
        {
            k += 1;
        }
        sorted.insert(k, unit);
        proof {
            let before = sorted_before;
            let after = units_view(sorted@);
            assert(after =~= before.insert(k as int, unit@));
            assert(rest_before =~= units_view(rest@).push(unit@));
            to_multiset_insert(before, k as int, unit@);
            to_multiset_build(units_view(rest@), unit@);
            assert(after.to_multiset().add(units_view(rest@).to_multiset())
                =~= before.to_multiset().add(rest_before.to_multiset()));
            assert forall|i: int, j: int| 0 <= i < j < after.len() implies !unit_before(
                after[j],
                after[i],
            ) by {
                if i == k {
                    let m = j - 1;
                    assert(after[j] == before[m]);
                    assert(unit_before(unit@, before[k as int]));
                    law_display_order(before[m], unit@, before[k as int]);
                } else if j == k {
                    assert(after[i] == before[i]);
                    assert(before[i] == sorted_before[i]);
                } else {
                    let a = if i < k { i } else { i - 1 };
                    let b = if j < k { j } else { j - 1 };
                    assert(after[i] == before[a] && after[j] == before[b]);
                }
            }
        }
    }
}

} // verus!
