use vstd::prelude::*;
use crate::blueprint::ElementType;
use crate::state::AppState;
use crate::tracing::lemma_filter_step;

verus! {

/// An analysed element as the clarification step sees it: its identifier (the UUID as a
/// 128-bit number) and its current type.
#[derive(Debug, Clone, Copy, PartialEq, Eq, Structural)]
pub struct ElementTag {
    pub id: u128,
    pub element_type: ElementType,
}

/// Index of the first element with identifier `id` at or after index `k`.
pub open spec fn find_from(elements: Seq<ElementTag>, id: u128, k: int) -> Option<int>
    decreases elements.len() - k,
{
    if k < 0 || k >= elements.len() {
        None
    } else if elements[k].id == id {
        Some(k)
    } else {
        find_from(elements, id, k + 1)
    }
}

/// Index of the first element with identifier `id`.
pub open spec fn find_id(elements: Seq<ElementTag>, id: u128) -> Option<int> {
    find_from(elements, id, 0)
}

/// Holds of every identifier but `id`.
pub open spec fn other_than(id: u128) -> spec_fn(u128) -> bool {
    |p: u128| p != id
}

/// The pending clarifications once those for element `id` are resolved.
pub open spec fn without_id(pending: Seq<u128>, id: u128) -> Seq<u128> {
    pending.filter(other_than(id))
}

proof fn lemma_find_from(elements: Seq<ElementTag>, id: u128, k: int)
    requires
        0 <= k <= elements.len(),
    ensures
        match find_from(elements, id, k) {
            Some(i) => k <= i < elements.len() && elements[i].id == id && forall|m: int|
                k <= m < i ==> elements[m].id != id,
            None => forall|m: int| k <= m < elements.len() ==> elements[m].id != id,
        },
    decreases elements.len() - k,
{
    if k < elements.len() {
        lemma_find_from(elements, id, k + 1);
    }
}

fn first_index_of(elements: &Vec<ElementTag>, id: u128) -> (r: Option<usize>)
    ensures
        match r {
            Some(i) => find_id(elements@, id) == Some(i as int),
            None => find_id(elements@, id) is None,
        },
{
    let mut k: usize = elements.len();
    let mut found: Option<usize> = None;
    proof {
        lemma_find_from(elements@, id, 0);
    }
    while k > 0
        invariant
            k <= elements@.len(),
            match found {
                Some(i) => find_from(elements@, id, k as int) == Some(i as int),
                None => find_from(elements@, id, k as int) is None,
            },
        decreases k,
    {
        k = k - 1;
        if elements[k].id == id {
            found = Some(k);
        }
    }
    found
}

/// Removes every pending clarification for element `id`, keeping the others in order.
pub fn resolve_pending(pending: &mut Vec<u128>, id: u128)
    ensures
        final(pending)@ == without_id(old(pending)@, id),
{
    let ghost old_p = pending@;
    let ghost pred = other_than(id);
    let mut kept: Vec<u128> = Vec::new();
    let mut k: usize = 0;
    while k < pending.len()
        invariant
            pending@ == old_p,
            k <= old_p.len(),
            pred == other_than(id),
            kept@ == old_p.take(k as int).filter(pred),
        decreases old_p.len() - k,
    {
        proof {
            lemma_filter_step(old_p, pred, k as int);
        }
        let p = pending[k];
        if p != id {
            kept.push(p);
        }
        k = k + 1;
    }
    assert(old_p.take(old_p.len() as int) == old_p);
    assert(kept@ == without_id(old_p, id));
    *pending = kept;
}

/// Applies the user's answer to a clarification: the first element with identifier
/// `id` takes the corrected type and the clarifications for `id` are resolved; the
/// element's previous type is returned for the correction history. When no element
/// has that identifier nothing changes and `None` is returned.
pub fn apply_correction(
    elements: &mut Vec<ElementTag>,
    pending: &mut Vec<u128>,
    id: u128,
    corrected: ElementType,
) -> (r: Option<ElementType>)
    ensures
        match find_id(old(elements)@, id) {
            Some(k) => {
                &&& r == Some(old(elements)@[k].element_type)
                &&& final(elements)@ == old(elements)@.update(k, ElementTag { id, element_type: corrected })
                &&& final(pending)@ == without_id(old(pending)@, id)
            },
            None => {
                &&& r is None
                &&& final(elements)@ == old(elements)@
                &&& final(pending)@ == old(pending)@
            },
        },
{
    match first_index_of(elements, id) {
        Some(k) => {
            proof {
                lemma_find_from(elements@, id, 0);
            }
            let previous = elements[k].element_type;
            elements.set(k, ElementTag { id, element_type: corrected });
            resolve_pending(pending, id);
            Some(previous)
        },
        None => None,
    }
}

/// Skips a clarification: the first element with identifier `id` becomes
/// `Unclassified` and the clarifications for `id` are resolved. No correction is
/// returned, so nothing is recorded in the correction history. When no element has
/// that identifier the elements stay as they are and the clarifications are still
/// resolved.
pub fn skip_clarification(elements: &mut Vec<ElementTag>, pending: &mut Vec<u128>, id: u128)
    ensures
        match find_id(old(elements)@, id) {
            Some(k) => final(elements)@ == old(elements)@.update(
                k,
                ElementTag { id, element_type: ElementType::Unclassified },
            ),
            None => final(elements)@ == old(elements)@,
        },
        final(pending)@ == without_id(old(pending)@, id),
{
    match first_index_of(elements, id) {
        Some(k) => {
            proof {
                lemma_find_from(elements@, id, 0);
            }
            elements.set(k, ElementTag { id, element_type: ElementType::Unclassified });
        },
        None => {},
    }
    resolve_pending(pending, id);
}

/// State after a clarification was answered or skipped: `ModelReady` once no
/// clarification is pending (or there is no session), else unchanged.
pub fn state_after_clarification(current: AppState, pending: Option<&Vec<u128>>) -> (r: AppState)
    ensures
        r == match pending {
            Some(p) => if p@.len() == 0 { AppState::ModelReady } else { current },
            None => AppState::ModelReady,
        },
{
    match pending {
        Some(p) => {
            if p.len() == 0 {
                AppState::ModelReady
            } else {
                current
            }
        },
        None => AppState::ModelReady,
    }
}

/// Once a clarification is resolved, no clarification for that element stays pending,
/// and every other pending clarification stays.
pub proof fn lemma_resolved_not_pending(pending: Seq<u128>, id: u128, other: u128)
    requires
        other != id,
    ensures
        !without_id(pending, id).contains(id),
        pending.contains(other) ==> without_id(pending, id).contains(other),
{
    broadcast use vstd::seq_lib::group_filter_ensures;
    let f = without_id(pending, id);
    if f.contains(id) {
        let i = choose|i: int| 0 <= i < f.len() && f[i] == id;
        pending.lemma_filter_pred(other_than(id), i);
    }
    if pending.contains(other) {
        let j = choose|j: int| 0 <= j < pending.len() && pending[j] == other;
        pending.lemma_filter_contains(other_than(id), j);
    }
}

} // verus!
