//! Resumable iteration over the positions of the records that a selector
//! picks out.
use vstd::prelude::*;

use crate::extension::{
    is_next_match, lemma_next_match_is_next, next_match, selects, ExtensionModel, Extensions,
    Selector, SelectorModel,
};

verus! {

/// Where an iteration stands.
#[derive(PartialEq, Eq, Structural, Debug, Clone, Copy)]
pub enum IterState {
    /// Nothing yielded yet.
    Start,
    /// The last position yielded.
    Scanning(usize),
    /// A search found nothing more; the iteration is over.
    Exhausted,
}

/// Where the next search of an iteration starts.
pub open spec fn resume_from(st: IterState) -> int {
    match st {
        IterState::Start => 0,
        IterState::Scanning(p) => p + 1,
        IterState::Exhausted => 0,
    }
}

/// Positions at or after `from` that `sel` picks out, in increasing order.
pub open spec fn matches_from(s: Seq<ExtensionModel>, sel: SelectorModel, from: int) -> Seq<usize>
    decreases s.len() - from,
{
    if from < 0 || from >= s.len() {
        Seq::empty()
    } else if selects(sel, s[from]) {
        seq![from as usize] + matches_from(s, sel, from + 1)
    } else {
        matches_from(s, sel, from + 1)
    }
}

/// What an iteration in state `st` has left to yield.
pub open spec fn remaining(s: Seq<ExtensionModel>, sel: SelectorModel, st: IterState) -> Seq<usize> {
    match st {
        IterState::Exhausted => Seq::empty(),
        _ => matches_from(s, sel, resume_from(st)),
    }
}

proof fn lemma_matches_from_step(s: Seq<ExtensionModel>, sel: SelectorModel, from: int)
    requires
        0 <= from,
        s.len() <= usize::MAX,
    ensures
        matches_from(s, sel, from) == match next_match(s, sel, from) {
            Some(p) => seq![p] + matches_from(s, sel, p + 1),
            None => Seq::<usize>::empty(),
        },
    decreases s.len() - from,
{
    if from < s.len() && !selects(sel, s[from]) {
        lemma_matches_from_step(s, sel, from + 1);
    }
}

proof fn lemma_matches_from_exact(s: Seq<ExtensionModel>, sel: SelectorModel, from: int)
    requires
        0 <= from,
        s.len() <= usize::MAX,
    ensures
        ({
            let r = matches_from(s, sel, from);
            &&& forall|k: int| 0 <= k < r.len() ==> from <= r[k] < s.len() && selects(sel, s[#[trigger] r[k] as int])
            &&& forall|k: int, l: int| 0 <= k < l < r.len() ==> r[k] < r[l]
            &&& forall|i: int| from <= i < s.len() && selects(sel, #[trigger] s[i]) ==> r.contains(i as usize)
        }),
    decreases s.len() - from,
{
    if from < s.len() {
        lemma_matches_from_exact(s, sel, from + 1);
        let r = matches_from(s, sel, from);
        let rest = matches_from(s, sel, from + 1);
        if selects(sel, s[from]) {
            assert(r == seq![from as usize] + rest);
            assert forall|i: int| from <= i < s.len() && selects(sel, #[trigger] s[i]) implies r.contains(i as usize) by {
                if i == from {
                    assert(r[0] == from as usize);
                } else {
                    let k = choose|k: int| 0 <= k < rest.len() && rest[k] == i as usize;
                    assert(r[k + 1] == i as usize);
                }
            }
            assert forall|k: int, l: int| 0 <= k < l < r.len() implies r[k] < r[l] by {
                if k > 0 {
                    assert(r[k] == rest[k - 1]);
                }
                assert(r[l] == rest[l - 1]);
            }
            assert forall|k: int| 0 <= k < r.len() implies from <= r[k] < s.len() && selects(sel, s[#[trigger] r[k] as int]) by {
                if k > 0 {
                    assert(r[k] == rest[k - 1]);
                }
            }
        }
    }
}

/// Iteration is determined by the sequence and the selector alone: a fresh
/// iteration yields every position that the selector picks out, each once, in
/// increasing order, and nothing else; two fresh iterations over the same
/// sequence therefore yield the same positions.
pub proof fn lemma_iteration_restartable(s: Seq<ExtensionModel>, sel: SelectorModel)
    requires
        s.len() <= usize::MAX,
    ensures
        ({
            let r = remaining(s, sel, IterState::Start);
            &&& forall|k: int| 0 <= k < r.len() ==> r[k] < s.len() && selects(sel, s[#[trigger] r[k] as int])
            &&& forall|k: int, l: int| 0 <= k < l < r.len() ==> r[k] < r[l]
            &&& forall|i: int| 0 <= i < s.len() && selects(sel, #[trigger] s[i]) ==> r.contains(i as usize)
        }),
{
    lemma_matches_from_exact(s, sel, 0);
}

/// An iteration over the positions of the records that a selector picks out.
/// It holds no borrow of the sequence: each step is handed the sequence.
pub struct ExtensionsIter {
    pub selector: Selector,
    pub state: IterState,
}

impl ExtensionsIter {
    /// A fresh iteration.
    pub fn new(selector: Selector) -> (r: ExtensionsIter)
        ensures
            r.selector@ == selector@,
            r.state == IterState::Start,
    {
        ExtensionsIter { selector, state: IterState::Start }
    }

    /// A fresh iteration over the records with registered NID `nid`.
    pub fn by_nid(nid: i32) -> (r: ExtensionsIter)
        ensures
            r.selector@ == SelectorModel::Nid(nid),
            r.state == IterState::Start,
    {
        ExtensionsIter::new(Selector::Nid(nid))
    }

    /// A fresh iteration over the records with object identifier `oid`.
    pub fn by_object(oid: Vec<u8>) -> (r: ExtensionsIter)
        ensures
            r.selector@ == SelectorModel::Object(oid@),
            r.state == IterState::Start,
    {
        ExtensionsIter::new(Selector::Object(oid))
    }

    /// A fresh iteration over the records whose critical flag is `critical`.
    pub fn by_critical(critical: bool) -> (r: ExtensionsIter)
        ensures
            r.selector@ == SelectorModel::Critical(critical),
            r.state == IterState::Start,
    {
        ExtensionsIter::new(Selector::Critical(critical))
    }

    /// A fresh iteration over every record.
    pub fn all() -> (r: ExtensionsIter)
        ensures
            r.selector@ == SelectorModel::Any,
            r.state == IterState::Start,
    {
        ExtensionsIter::new(Selector::Any)
    }

    /// The next position, each strictly after the one before; `None` once
    /// the search finds nothing more, and from then on.
    pub fn next(&mut self, exts: &Extensions) -> (r: Option<usize>)
        ensures
            final(self).selector@ == old(self).selector@,
            remaining(exts@, old(self).selector@, old(self).state) == match r {
                Some(p) => seq![p] + remaining(exts@, old(self).selector@, final(self).state),
                None => Seq::<usize>::empty(),
            },
            old(self).state != IterState::Exhausted ==> is_next_match(
                exts@,
                old(self).selector@,
                resume_from(old(self).state),
                r,
            ),
            old(self).state == IterState::Exhausted ==> r is None,
            r is Some ==> final(self).state == IterState::Scanning(r.unwrap()),
            r is None ==> final(self).state == IterState::Exhausted,
    {
        let last = match self.state {
            IterState::Exhausted => return None,
            IterState::Start => None,
            IterState::Scanning(p) => Some(p),
        };
        let len = exts.count();
        let r = exts.find_next(&self.selector, last);
        proof {
            assert(exts@.len() == len);
            lemma_matches_from_step(exts@, self.selector@, resume_from(self.state));
        }
        self.state = match r {
            Some(p) => IterState::Scanning(p),
            None => IterState::Exhausted,
        };
        r
    }

    /// Runs the iteration to its end and returns what it yielded.
    pub fn collect_positions(&mut self, exts: &Extensions) -> (r: Vec<usize>)
        ensures
            r@ == remaining(exts@, old(self).selector@, old(self).state),
            final(self).state == IterState::Exhausted,
            final(self).selector@ == old(self).selector@,
    {
        let mut out: Vec<usize> = Vec::new();
        loop
            invariant
                self.selector@ == old(self).selector@,
                remaining(exts@, old(self).selector@, old(self).state) == out@ + remaining(
                    exts@,
                    self.selector@,
                    self.state,
                ),
            decreases remaining(exts@, self.selector@, self.state).len(),
        {
            let ghost before = remaining(exts@, self.selector@, self.state);
            match self.next(exts) {
                Some(p) => {
                    assert(out@.push(p) + remaining(exts@, self.selector@, self.state) =~= out@
                        + before);
                    out.push(p);
                },
                None => {
                    assert(out@ + Seq::<usize>::empty() =~= out@);
                    return out;
                },
            }
        }
    }
}

} // verus!
