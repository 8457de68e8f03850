use vstd::prelude::*;
use crate::session::{Session, next_party_number, numbers, numbers_increasing};
use crate::state::State;

verus! {

/// Every party number signed up to a session lies between one and the
/// group's number of parties.
pub proof fn lemma_party_numbers_in_range(st: State, gi: int, si: int, k: int)
    requires
        st.wf(),
        0 <= gi < st.groups@.len(),
        0 <= si < st.groups@[gi].sessions@.len(),
        0 <= k < st.groups@[gi].sessions@[si].party_signups@.len(),
    ensures
        1 <= st.groups@[gi].sessions@[si].party_signups@[k].0 <= st.groups@[gi].params.parties,
{
    assert(st.groups@[gi].wf());
    assert(st.groups@[gi].sessions@[si].wf(st.groups@[gi].params.parties));
}

/// No party number occurs twice among a session's signups.
pub proof fn lemma_party_numbers_distinct(st: State, gi: int, si: int, a: int, b: int)
    requires
        st.wf(),
        0 <= gi < st.groups@.len(),
        0 <= si < st.groups@[gi].sessions@.len(),
        0 <= a < b < st.groups@[gi].sessions@[si].party_signups@.len(),
    ensures
        st.groups@[gi].sessions@[si].party_signups@[a].0 != st.groups@[gi].sessions@[si].party_signups@[b].0,
{
    assert(st.groups@[gi].wf());
    assert(st.groups@[gi].sessions@[si].wf(st.groups@[gi].params.parties));
}

/// Only parties signed up to a session have marked it finished.
pub proof fn lemma_finished_signed_up(st: State, gi: int, si: int)
    requires
        st.wf(),
        0 <= gi < st.groups@.len(),
        0 <= si < st.groups@[gi].sessions@.len(),
    ensures
        st.groups@[gi].sessions@[si].finished_set().subset_of(
            numbers(st.groups@[gi].sessions@[si].party_signups@).to_set(),
        ),
{
    let g = st.groups@[gi];
    let s = g.sessions@[si];
    assert(g.wf());
    assert(s.wf(g.params.parties));
    let nums = numbers(s.party_signups@);
    assert forall|n: u16| s.finished_set().contains(n) implies nums.to_set().contains(n) by {
        let k = choose|k: int| 0 <= k < s.finished@.len() && s.finished@[k] == n;
        let i = choose|i: int| 0 <= i < s.party_signups@.len() && #[trigger] s.party_signups@[i].0 == s.finished@[k];
        assert(nums[i] == n);
    }
}

/// A group holds between one member and its number of parties: a group
/// left without members is no longer in the registry.
pub proof fn lemma_group_size(st: State, gi: int)
    requires
        st.wf(),
        0 <= gi < st.groups@.len(),
    ensures
        1 <= st.groups@[gi].clients@.len() <= st.groups@[gi].params.parties,
{
    assert(st.groups@[gi].wf());
}

/// Automatic signups hand out strictly increasing party numbers: the new
/// number is above every number signed up before, so none is reused, and
/// a signup list built by signups alone stays strictly increasing.
pub proof fn lemma_signup_increasing(before: Session, after: Session, n: u16, conn: usize)
    requires
        numbers_increasing(before.party_signups@),
        n == next_party_number(before.party_signups@),
        after.party_signups@ == before.party_signups@.push((n, conn)),
    ensures
        forall|i: int| 0 <= i < before.party_signups@.len() ==> #[trigger] before.party_signups@[i].0 < n,
        numbers_increasing(after.party_signups@),
{
    let s = before.party_signups@;
    let t = after.party_signups@;
    assert forall|i: int| 0 <= i < s.len() implies #[trigger] s[i].0 < n by {
        if i < s.len() - 1 {
            assert(s[i].0 < s[s.len() - 1].0);
        }
    }
    assert forall|i: int, j: int| 0 <= i < j < t.len() implies #[trigger] t[i].0 < #[trigger] t[j].0 by {
        assert(t[i] == s[i]);
        if j < s.len() {
            assert(t[j] == s[j]);
        }
    }
}

} // verus!
