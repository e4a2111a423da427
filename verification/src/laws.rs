//! The coordinator's global laws, stated and proved once over the
//! contracts of the operations they relate.

use vstd::prelude::*;
use crate::envelope::DeliveryV;
use crate::envelope::EventV;
use crate::envelope::ProfileV;
use crate::matching::fresh_user;
use crate::matching::is_fresh;
use crate::matching::join_post;
use crate::matching::match_pool;
use crate::matching::paired_post;
use crate::matching::with_partner;
use crate::server::StateV;
use crate::server::bucket_entry_inv;
use crate::server::cascade_effect;
use crate::server::inv;
use crate::server::lemma_filter_all;
use crate::server::ne_pred;

verus! {

/// Connection identifiers are unique for the coordinator's lifetime.
///
/// `connect` returns an identifier outside its pre-state's minted set and
/// mints exactly it, and every other operation leaves the minted set
/// alone, so the minted set only grows between any two operations. Taking
/// `m1` as the first connect's pre-state minted set and `m2` as a later
/// connect's, the two results can never coincide.
pub proof fn lemma_connection_ids_distinct(m1: Set<u64>, r1: u64, m2: Set<u64>, r2: u64)
    requires
        !m1.contains(r1),
        m1.insert(r1).subset_of(m2),
        !m2.contains(r2),
    ensures
        r1 != r2,
{
    assert(m2.contains(r1));
}

/// A connection sitting in any waiting-pool bucket never simultaneously
/// holds a partner binding.
pub proof fn lemma_waiting_excludes_partner(s: StateV, id: u64)
    requires
        inv(s),
        s.in_waiting(id),
    ensures
        s.users.contains_key(id),
        s.users[id].partner is None,
{
    let bi = choose|bi: int|
        0 <= bi < s.waiting.len() && (#[trigger] s.waiting[bi]).ids.contains(id);
    let i = choose|i: int| 0 <= i < s.waiting[bi].ids.len() && s.waiting[bi].ids[i] == id;
    assert(bucket_entry_inv(s, bi, i));
}

/// Disconnecting a connection that holds no session state — including one
/// already removed by an earlier disconnect — changes nothing and delivers
/// nothing: the cascade is idempotent and never an error.
pub proof fn lemma_disconnect_unknown_is_noop(
    s0: StateV,
    s1: StateV,
    conn: u64,
    deliv: Seq<DeliveryV>,
)
    requires
        inv(s0),
        !s0.users.contains_key(conn),
        cascade_effect(s0, s1, conn, deliv),
    ensures
        s1.users == s0.users,
        s1.groups == s0.groups,
        s1.waiting == s0.waiting,
        s1.next_id == s0.next_id,
        s1.sessions == s0.sessions,
        deliv == Seq::<DeliveryV>::empty(),
{
    assert forall|bi: int| 0 <= bi < s0.waiting.len() implies s1.waiting[bi]
        == s0.waiting[bi] by {
        assert forall|i: int|
            0 <= i < s0.waiting[bi].ids.len() implies ne_pred(conn)(
            #[trigger] s0.waiting[bi].ids[i]) by {
            if s0.waiting[bi].ids[i] == conn {
                assert(bucket_entry_inv(s0, bi, i));
            }
        }
        lemma_filter_all(s0.waiting[bi].ids, ne_pred(conn));
    }
    assert(s1.waiting =~= s0.waiting);
}

/// Matching symmetry: when a fresh pairwise joiner's candidate pool is
/// exactly one waiting connection, the two sessions end bound to each
/// other, and — when both connections hold queues — each side receives
/// `chat_started`, the joiner first.
///
/// Which profiles put `a` into `b`'s pool is the matchmaking rule itself:
/// `a` waits under `b`'s preference key — so the two stated the same
/// preference — and `a`'s gender satisfies that shared preference.
pub proof fn lemma_matching_symmetry(
    s0: StateV,
    s1: StateV,
    a: u64,
    b: u64,
    prof: ProfileV,
    deliv: Seq<DeliveryV>,
)
    requires
        inv(s0),
        is_fresh(s0, b),
        prof.room_type != "group"@,
        join_post(s0, s1, b, prof, deliv),
        match_pool(
            StateV { users: s0.users.insert(b, fresh_user(prof)), ..s0 },
            prof.preference,
        ) == seq![a],
    ensures
        s1.users.contains_key(a),
        s1.users.contains_key(b),
        s1.users[b].partner == Some(a),
        s1.users[a].partner == Some(b),
        s0.sessions.contains(b) && s0.sessions.contains(a) ==> deliv == seq![
            DeliveryV { to: b, event: EventV::ChatStarted { group_code: None } },
            DeliveryV { to: a, event: EventV::ChatStarted { group_code: None } },
        ],
{
    let su = StateV { users: s0.users.insert(b, fresh_user(prof)), ..s0 };
    assert(su.users[b] == fresh_user(prof));
    assert(su.users[b].preference == prof.preference);
    let pool2 = match_pool(su, prof.preference);
    assert(pool2.len() == 1);
    let p = choose|p: u64| #[trigger] pool2.contains(p) && paired_post(su, s1, b, p, deliv);
    assert(pool2.contains(p) && paired_post(su, s1, b, p, deliv));
    assert(p == a) by {
        let j = choose|j: int| 0 <= j < pool2.len() && pool2[j] == p;
        assert(j == 0);
    }
    assert(a != b) by {
        if a == b {
            assert(pool2[0] == b);
            assert(pool2.contains(b));
            crate::server::lemma_filter_membership(
                su.waiting[crate::matching::bucket_index(su, prof.preference)].ids,
                crate::matching::pool_pred(su, prof.preference),
            );
            assert(su.waiting[crate::matching::bucket_index(su, prof.preference)].ids.contains(
                b,
            ));
            assert(s0.in_waiting(b));
        }
    }
    assert(s1.users == su.users.insert(b, with_partner(su.users[b], a)).insert(
        a,
        with_partner(su.users[a], b),
    ));
    assert(s1.users[b] == with_partner(su.users[b], a));
    assert(s1.users[a] == with_partner(su.users[a], b));
    if s0.sessions.contains(b) && s0.sessions.contains(a) {
        assert(deliv =~= seq![
            DeliveryV { to: b, event: EventV::ChatStarted { group_code: None } },
            DeliveryV { to: a, event: EventV::ChatStarted { group_code: None } },
        ]);
    }
}

} // verus!
