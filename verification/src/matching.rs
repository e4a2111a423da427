//! Pairwise matchmaking and the `join_chat` entry point: a joiner is
//! matched against the waiting pool under its own preference key, paired
//! with a uniformly chosen compatible candidate, or enqueued to wait.

use vstd::prelude::*;
use crate::envelope::Delivery;
use crate::envelope::DeliveryV;
use crate::envelope::EventV;
use crate::envelope::ProfileV;
use crate::envelope::ServerEvent;
use crate::envelope::UserProfile;
use crate::envelope::views_of;
use crate::fanout::lemma_views_push;
use crate::groups::created_post;
use crate::groups::join_code_post;
use crate::groups::random_post;
use crate::server::BucketV;
use crate::server::ChatServer;
use crate::server::StateV;
use crate::server::User;
use crate::server::UserV;
use crate::server::WaitBucket;
use crate::server::bucket_entry_inv;
use crate::server::cascade_effect;
use crate::server::group_inv;
use crate::server::inv;
use crate::server::lemma_filter_all;
use crate::server::lemma_filter_membership;
use crate::server::lemma_filter_no_dup;
use crate::server::lemma_filter_take_step;
use crate::server::member_inv;
use crate::server::ne_pred;
use crate::server::partner_inv;
use crate::server::room_inv;
use crate::server::sessions_inv;
use crate::server::user_group_inv;

verus! {

/// Whether a candidate's gender satisfies a joiner's preference: `male`
/// asks for `male`, `female` for `female`, and any other preference value
/// matches nobody.
pub open spec fn gender_matches(pref: Seq<char>, gender: Seq<char>) -> bool {
    ||| (pref == "male"@ && gender == "male"@)
    ||| (pref == "female"@ && gender == "female"@)
}

/// The candidate filter of the matchmaking algorithm, as one predicate
/// value shared by specs and proofs.
pub open spec fn pool_pred(s: StateV, pref: Seq<char>) -> spec_fn(u64) -> bool {
    |id: u64| s.users.contains_key(id) && gender_matches(pref, s.users[id].gender)
}

/// Whether the waiting pool has a bucket under key `pref`.
pub open spec fn has_bucket(s: StateV, pref: Seq<char>) -> bool {
    exists|bi: int| 0 <= bi < s.waiting.len() && (#[trigger] s.waiting[bi]).preference == pref
}

/// The index of the bucket under key `pref`.
pub open spec fn bucket_index(s: StateV, pref: Seq<char>) -> int {
    choose|bi: int| 0 <= bi < s.waiting.len() && (#[trigger] s.waiting[bi]).preference == pref
}

/// The candidate pool a pairwise joiner with preference `pref` is matched
/// against: everyone waiting under `pref` whose gender satisfies it.
pub open spec fn match_pool(s: StateV, pref: Seq<char>) -> Seq<u64> {
    if has_bucket(s, pref) {
        s.waiting[bucket_index(s, pref)].ids.filter(pool_pred(s, pref))
    } else {
        Seq::<u64>::empty()
    }
}

/// `u` bound to partner `p`.
pub open spec fn with_partner(u: UserV, p: u64) -> UserV {
    UserV { partner: Some(p), ..u }
}

/// A successful match of `conn` with `p`: both sessions point at each
/// other, both leave every waiting bucket, and each end with a queue gets
/// `chat_started`, the joiner first.
pub open spec fn paired_post(
    s0: StateV,
    s1: StateV,
    conn: u64,
    p: u64,
    deliv: Seq<DeliveryV>,
) -> bool {
    &&& s1.users == s0.users.insert(conn, with_partner(s0.users[conn], p)).insert(
        p,
        with_partner(s0.users[p], conn),
    )
    &&& s1.groups == s0.groups
    &&& s1.sessions == s0.sessions
    &&& s1.next_id == s0.next_id
    &&& s1.waiting.len() == s0.waiting.len()
    &&& forall|bi: int|
        0 <= bi < s0.waiting.len() ==> (#[trigger] s1.waiting[bi]).preference
            == s0.waiting[bi].preference
    &&& forall|bi: int|
        0 <= bi < s0.waiting.len() ==> (#[trigger] s1.waiting[bi]).ids == s0.waiting[bi].ids.filter(
            ne_pred(conn),
        ).filter(ne_pred(p))
    &&& deliv == (if s0.sessions.contains(conn) {
        seq![DeliveryV { to: conn, event: EventV::ChatStarted { group_code: None } }]
    } else {
        Seq::<DeliveryV>::empty()
    }) + (if s0.sessions.contains(p) {
        seq![DeliveryV { to: p, event: EventV::ChatStarted { group_code: None } }]
    } else {
        Seq::<DeliveryV>::empty()
    })
}

/// An unmatched pairwise joiner is enqueued at the back of its own
/// preference bucket — created on first use — and told to wait.
pub open spec fn enqueued_post(
    s0: StateV,
    s1: StateV,
    conn: u64,
    deliv: Seq<DeliveryV>,
) -> bool {
    let pref = s0.users[conn].preference;
    &&& s1.users == s0.users
    &&& s1.groups == s0.groups
    &&& s1.sessions == s0.sessions
    &&& s1.next_id == s0.next_id
    &&& (if has_bucket(s0, pref) {
        s1.waiting == s0.waiting.update(
            bucket_index(s0, pref),
            BucketV {
                preference: pref,
                ids: s0.waiting[bucket_index(s0, pref)].ids.push(conn),
            },
        )
    } else {
        s1.waiting == s0.waiting.push(BucketV { preference: pref, ids: seq![conn] })
    })
    &&& deliv == (if s0.sessions.contains(conn) {
        seq![DeliveryV { to: conn, event: EventV::WaitingForMatch }]
    } else {
        Seq::<DeliveryV>::empty()
    })
}

/// The whole pairwise join step: matched against some pool candidate when
/// the pool is non-empty, enqueued otherwise.
pub open spec fn pair_join_post(
    s0: StateV,
    s1: StateV,
    conn: u64,
    deliv: Seq<DeliveryV>,
) -> bool {
    let pool = match_pool(s0, s0.users[conn].preference);
    if pool.len() > 0 {
        exists|p: u64| #[trigger] pool.contains(p) && paired_post(s0, s1, conn, p, deliv)
    } else {
        enqueued_post(s0, s1, conn, deliv)
    }
}

/// The display name a joining profile ends up with: the supplied username,
/// or, when that is empty, `User-` followed by the first characters of the
/// user id (at most five).
pub open spec fn default_name(prof: ProfileV) -> Seq<char> {
    if prof.username.len() > 0 {
        prof.username
    } else {
        "User-"@ + prof.user_id.take(
            if prof.user_id.len() < 5 {
                prof.user_id.len() as int
            } else {
                5
            },
        )
    }
}

/// The session a joining profile creates: no partner, no group.
pub open spec fn fresh_user(prof: ProfileV) -> UserV {
    UserV {
        user_id: prof.user_id,
        username: default_name(prof),
        gender: prof.gender,
        preference: prof.preference,
        room_type: prof.room_type,
        partner: None,
        group: None,
    }
}

/// A connection with no session state yet: the common case for `join_chat`.
pub open spec fn is_fresh(s: StateV, conn: u64) -> bool {
    &&& !s.users.contains_key(conn)
    &&& !s.in_waiting(conn)
}

/// What `join_chat` does for a fresh connection: creates the session, then
/// runs the join algorithm the profile selects — matchmaking for pairwise
/// rooms; create, join-by-code or random for group rooms, with `random` as
/// the default method.
pub open spec fn join_post(
    s0: StateV,
    s1: StateV,
    conn: u64,
    prof: ProfileV,
    deliv: Seq<DeliveryV>,
) -> bool {
    let su = StateV { users: s0.users.insert(conn, fresh_user(prof)), ..s0 };
    if prof.room_type == "group"@ {
        if prof.group_join_method == Some("create"@) {
            created_post(su, s1, conn, deliv)
        } else if prof.group_join_method == Some("join"@) {
            match prof.group_code {
                Some(c) => join_code_post(su, s1, conn, c, deliv),
                None => random_post(su, s1, conn, deliv),
            }
        } else {
            random_post(su, s1, conn, deliv)
        }
    } else {
        pair_join_post(su, s1, conn, deliv)
    }
}

/// Inserting a session that holds no partner and no group, for a
/// connection in no waiting bucket, preserves the coordinator invariant.
pub(crate) proof fn lemma_insert_fresh_inv(s0: StateV, s1: StateV, conn: u64, u: UserV)
    requires
        inv(s0),
        !s0.users.contains_key(conn),
        !s0.in_waiting(conn),
        u.partner is None,
        u.group is None,
        s1.users == s0.users.insert(conn, u),
        s1.waiting == s0.waiting,
        s1.groups == s0.groups,
        s1.sessions == s0.sessions,
        s1.next_id == s0.next_id,
    ensures
        inv(s1),
{
    assert(sessions_inv(s1)) by {
        assert(sessions_inv(s0));
    }
    assert forall|bi: int, i: int|
        0 <= bi < s1.waiting.len() && 0 <= i
            < s1.waiting[bi].ids.len() implies #[trigger] bucket_entry_inv(s1, bi, i) by {
        assert(bucket_entry_inv(s0, bi, i));
        let x = s0.waiting[bi].ids[i];
        assert(s0.waiting[bi].ids.contains(x));
        assert(x != conn);
        assert(s1.users[x] == s0.users[x]);
    }
    assert forall|id: u64| #[trigger] s1.users.contains_key(id) implies (match s1.users[id].partner {
        Some(q) => q != id && s1.users.contains_key(q) && s1.users[q].partner == Some(id),
        None => true,
    }) by {
        if id != conn {
            assert(s1.users[id] == s0.users[id]);
            assert(s0.users.contains_key(id));
            match s0.users[id].partner {
                Some(q) => {
                    assert(q != id && s0.users.contains_key(q) && s0.users[q].partner == Some(
                        id,
                    ));
                    assert(q != conn);
                    assert(s1.users[q] == s0.users[q]);
                }
                None => {}
            }
        }
    }
    assert forall|id: u64| #[trigger] s1.users.contains_key(id) implies {
        &&& (s1.users[id].room_type == "group"@ ==> s1.users[id].partner is None)
        &&& (s1.users[id].room_type != "group"@ ==> s1.users[id].group is None)
    } by {
        if id != conn {
            assert(s1.users[id] == s0.users[id]);
            assert(s0.users.contains_key(id));
        }
    }
    assert forall|gi: int| 0 <= gi < s1.groups.len() implies #[trigger] group_inv(s1, gi) by {
        assert(group_inv(s0, gi));
        assert forall|i: int|
            0 <= i < s1.groups[gi].members.len() implies #[trigger] member_inv(s1, gi, i) by {
            assert(member_inv(s0, gi, i));
            let m = s1.groups[gi].members[i];
            assert(m != conn);
            assert(s1.users[m] == s0.users[m]);
        }
    }
    assert forall|id: u64| #[trigger] s1.users.contains_key(id) implies (match s1.users[id].group {
        Some(c2) => exists|b: int|
            0 <= b < s1.groups.len() && (#[trigger] s1.groups[b]).code == c2
                && s1.groups[b].members.contains(id),
        None => true,
    }) by {
        assert(user_group_inv(s0));
        if id != conn {
            assert(s1.users[id] == s0.users[id]);
            assert(s0.users.contains_key(id));
            match s0.users[id].group {
                Some(c2) => {
                    let b = choose|b: int|
                        0 <= b < s0.groups.len() && (#[trigger] s0.groups[b]).code == c2
                            && s0.groups[b].members.contains(id);
                    assert(s1.groups[b] == s0.groups[b]);
                }
                None => {}
            }
        }
    }
}

/// Binding two unpartnered pairwise sessions to each other and dropping
/// both from every waiting bucket preserves the coordinator invariant.
pub(crate) proof fn lemma_connect_inv(s0: StateV, s1: StateV, u1: u64, u2: u64)
    requires
        inv(s0),
        u1 != u2,
        s0.users.contains_key(u1),
        s0.users.contains_key(u2),
        s0.users[u1].partner is None,
        s0.users[u2].partner is None,
        s0.users[u1].room_type != "group"@,
        s0.users[u2].room_type != "group"@,
        s1.users == s0.users.insert(u1, with_partner(s0.users[u1], u2)).insert(
            u2,
            with_partner(s0.users[u2], u1),
        ),
        s1.groups == s0.groups,
        s1.sessions == s0.sessions,
        s1.next_id == s0.next_id,
        s1.waiting.len() == s0.waiting.len(),
        forall|bi: int|
            0 <= bi < s0.waiting.len() ==> (#[trigger] s1.waiting[bi]).preference
                == s0.waiting[bi].preference,
        forall|bi: int|
            0 <= bi < s0.waiting.len() ==> (#[trigger] s1.waiting[bi]).ids
                == s0.waiting[bi].ids.filter(ne_pred(u1)).filter(ne_pred(u2)),
    ensures
        inv(s1),
{
    assert(sessions_inv(s1)) by {
        assert(sessions_inv(s0));
    }
    assert(s0.users[u1].group is None);
    assert(s0.users[u2].group is None);
    assert forall|bi: int, x: u64|
        0 <= bi < s1.waiting.len() && #[trigger] s1.waiting[bi].ids.contains(
            x,
        ) implies s0.waiting[bi].ids.contains(x) && x != u1 && x != u2 by {
        lemma_filter_membership(s0.waiting[bi].ids, ne_pred(u1));
        lemma_filter_membership(s0.waiting[bi].ids.filter(ne_pred(u1)), ne_pred(u2));
    }
    assert forall|bi: int|
        0 <= bi < s1.waiting.len() implies (#[trigger] s1.waiting[bi]).ids.no_duplicates() by {
        lemma_filter_no_dup(s0.waiting[bi].ids, ne_pred(u1));
        lemma_filter_no_dup(s0.waiting[bi].ids.filter(ne_pred(u1)), ne_pred(u2));
    }
    assert forall|bi: int, bj: int, x: u64|
        0 <= bi < s1.waiting.len() && 0 <= bj < s1.waiting.len() && bi != bj && (
        #[trigger] s1.waiting[bi].ids.contains(x)) implies !(#[trigger] s1.waiting[bj].ids.contains(
            x,
        )) by {
        if s1.waiting[bj].ids.contains(x) {
            assert(s0.waiting[bi].ids.contains(x));
            assert(s0.waiting[bj].ids.contains(x));
        }
    }
    assert forall|bi: int, i: int|
        0 <= bi < s1.waiting.len() && 0 <= i
            < s1.waiting[bi].ids.len() implies #[trigger] bucket_entry_inv(s1, bi, i) by {
        let x = s1.waiting[bi].ids[i];
        assert(s1.waiting[bi].ids.contains(x));
        assert(s0.waiting[bi].ids.contains(x) && x != u1 && x != u2);
        let j = choose|j: int| 0 <= j < s0.waiting[bi].ids.len() && s0.waiting[bi].ids[j] == x;
        assert(bucket_entry_inv(s0, bi, j));
        assert(s1.users[x] == s0.users[x]);
    }
    assert forall|id: u64| #[trigger] s1.users.contains_key(id) implies (match s1.users[id].partner {
        Some(q) => q != id && s1.users.contains_key(q) && s1.users[q].partner == Some(id),
        None => true,
    }) by {
        if id == u1 || id == u2 {
        } else {
            assert(s1.users[id] == s0.users[id]);
            assert(s0.users.contains_key(id));
            match s0.users[id].partner {
                Some(q) => {
                    assert(q != id && s0.users.contains_key(q) && s0.users[q].partner == Some(
                        id,
                    ));
                    if q == u1 || q == u2 {
                        assert(false);
                    }
                    assert(s1.users[q] == s0.users[q]);
                }
                None => {}
            }
        }
    }
    assert forall|id: u64| #[trigger] s1.users.contains_key(id) implies {
        &&& (s1.users[id].room_type == "group"@ ==> s1.users[id].partner is None)
        &&& (s1.users[id].room_type != "group"@ ==> s1.users[id].group is None)
    } by {
        if id == u1 || id == u2 {
        } else {
            assert(s1.users[id] == s0.users[id]);
            assert(s0.users.contains_key(id));
        }
    }
    assert forall|gi: int| 0 <= gi < s1.groups.len() implies #[trigger] group_inv(s1, gi) by {
        assert(group_inv(s0, gi));
        assert forall|i: int|
            0 <= i < s1.groups[gi].members.len() implies #[trigger] member_inv(s1, gi, i) by {
            assert(member_inv(s0, gi, i));
            let m = s1.groups[gi].members[i];
            assert(s0.users[m].room_type == "group"@);
            assert(m != u1 && m != u2);
            assert(s1.users[m] == s0.users[m]);
        }
    }
    assert forall|id: u64| #[trigger] s1.users.contains_key(id) implies (match s1.users[id].group {
        Some(c2) => exists|b: int|
            0 <= b < s1.groups.len() && (#[trigger] s1.groups[b]).code == c2
                && s1.groups[b].members.contains(id),
        None => true,
    }) by {
        assert(user_group_inv(s0));
        if id == u1 || id == u2 {
            assert(s1.users[id].group is None);
        } else {
            assert(s1.users[id] == s0.users[id]);
            assert(s0.users.contains_key(id));
            match s0.users[id].group {
                Some(c2) => {
                    let b = choose|b: int|
                        0 <= b < s0.groups.len() && (#[trigger] s0.groups[b]).code == c2
                            && s0.groups[b].members.contains(id);
                    assert(s1.groups[b] == s0.groups[b]);
                }
                None => {}
            }
        }
    }
}

/// Appending an unmatched, unpartnered pairwise joiner to its own
/// preference bucket preserves the coordinator invariant.
pub(crate) proof fn lemma_enqueue_inv(s0: StateV, s1: StateV, conn: u64)
    requires
        inv(s0),
        s0.users.contains_key(conn),
        s0.users[conn].partner is None,
        s0.users[conn].room_type != "group"@,
        !s0.in_waiting(conn),
        s1.users == s0.users,
        s1.groups == s0.groups,
        s1.sessions == s0.sessions,
        s1.next_id == s0.next_id,
        ({
            let pref = s0.users[conn].preference;
            if has_bucket(s0, pref) {
                s1.waiting == s0.waiting.update(
                    bucket_index(s0, pref),
                    BucketV {
                        preference: pref,
                        ids: s0.waiting[bucket_index(s0, pref)].ids.push(conn),
                    },
                )
            } else {
                s1.waiting == s0.waiting.push(BucketV { preference: pref, ids: seq![conn] })
            }
        }),
    ensures
        inv(s1),
{
    let pref = s0.users[conn].preference;
    assert(sessions_inv(s1)) by {
        assert(sessions_inv(s0));
    }
    assert(partner_inv(s1)) by {
        assert(partner_inv(s0));
    }
    assert(room_inv(s1)) by {
        assert(room_inv(s0));
    }
    assert forall|gi: int| 0 <= gi < s1.groups.len() implies #[trigger] group_inv(s1, gi) by {
        assert(group_inv(s0, gi));
        assert forall|i: int|
            0 <= i < s1.groups[gi].members.len() implies #[trigger] member_inv(s1, gi, i) by {
            assert(member_inv(s0, gi, i));
        }
    }
    assert(user_group_inv(s1)) by {
        assert(user_group_inv(s0));
    }
    if has_bucket(s0, pref) {
        let tb = bucket_index(s0, pref);
        assert(0 <= tb < s0.waiting.len() && s0.waiting[tb].preference == pref);
        let newids = s0.waiting[tb].ids.push(conn);
        assert(!s0.waiting[tb].ids.contains(conn));
        assert forall|bi: int, bj: int|
            0 <= bi < s1.waiting.len() && 0 <= bj < s1.waiting.len() && bi != bj implies (
            #[trigger] s1.waiting[bi].preference) != (#[trigger] s1.waiting[bj].preference) by {
            assert(s1.waiting[bi].preference == s0.waiting[bi].preference);
            assert(s1.waiting[bj].preference == s0.waiting[bj].preference);
        }
        assert forall|bi: int, i: int|
            0 <= bi < s1.waiting.len() && 0 <= i
                < s1.waiting[bi].ids.len() implies #[trigger] bucket_entry_inv(s1, bi, i) by {
            if bi == tb && i == s0.waiting[tb].ids.len() {
                assert(s1.waiting[bi].ids[i] == conn);
            } else {
                assert(s1.waiting[bi].ids[i] == s0.waiting[bi].ids[i]);
                assert(bucket_entry_inv(s0, bi, i));
            }
        }
        assert forall|bi: int|
            0 <= bi < s1.waiting.len() implies (#[trigger] s1.waiting[bi]).ids.no_duplicates() by {
            if bi == tb {
                assert forall|i: int, j: int|
                    0 <= i < newids.len() && 0 <= j < newids.len() && i != j implies newids[i]
                    != newids[j] by {
                    if i < newids.len() - 1 && j < newids.len() - 1 {
                    } else if i < newids.len() - 1 {
                        assert(newids[j] == conn);
                        assert(s0.waiting[tb].ids[i] != conn);
                    } else {
                        assert(newids[i] == conn);
                        assert(s0.waiting[tb].ids[j] != conn);
                    }
                }
            }
        }
        assert forall|bi: int, bj: int, x: u64|
            0 <= bi < s1.waiting.len() && 0 <= bj < s1.waiting.len() && bi != bj && (
            #[trigger] s1.waiting[bi].ids.contains(x)) implies !(
            #[trigger] s1.waiting[bj].ids.contains(x)) by {
            if s1.waiting[bj].ids.contains(x) {
                if bi == tb {
                    if x == conn {
                        assert(s0.waiting[bj].ids.contains(conn));
                        assert(false);
                    }
                    assert(s0.waiting[bi].ids.contains(x));
                    assert(s0.waiting[bj].ids.contains(x));
                } else if bj == tb {
                    if x == conn {
                        assert(s0.waiting[bi].ids.contains(conn));
                        assert(false);
                    }
                    assert(s0.waiting[bi].ids.contains(x));
                    assert(s0.waiting[bj].ids.contains(x));
                } else {
                    assert(s0.waiting[bi].ids.contains(x));
                    assert(s0.waiting[bj].ids.contains(x));
                }
            }
        }
    } else {
        let n = s0.waiting.len() as int;
        assert forall|bi: int, bj: int|
            0 <= bi < s1.waiting.len() && 0 <= bj < s1.waiting.len() && bi != bj implies (
            #[trigger] s1.waiting[bi].preference) != (#[trigger] s1.waiting[bj].preference) by {
            if bi < n && bj < n {
            } else if bi < n {
                assert(s1.waiting[bj].preference == pref);
                if s0.waiting[bi].preference == pref {
                    assert(has_bucket(s0, pref));
                }
            } else {
                assert(s1.waiting[bi].preference == pref);
                if s0.waiting[bj].preference == pref {
                    assert(has_bucket(s0, pref));
                }
            }
        }
        assert forall|bi: int, i: int|
            0 <= bi < s1.waiting.len() && 0 <= i
                < s1.waiting[bi].ids.len() implies #[trigger] bucket_entry_inv(s1, bi, i) by {
            if bi < n {
                assert(s1.waiting[bi] == s0.waiting[bi]);
                assert(bucket_entry_inv(s0, bi, i));
            } else {
                assert(i == 0);
                assert(s1.waiting[bi].ids[0] == conn);
            }
        }
        assert forall|bi: int|
            0 <= bi < s1.waiting.len() implies (#[trigger] s1.waiting[bi]).ids.no_duplicates() by {
            if bi < n {
                assert(s1.waiting[bi] == s0.waiting[bi]);
            }
        }
        assert forall|bi: int, bj: int, x: u64|
            0 <= bi < s1.waiting.len() && 0 <= bj < s1.waiting.len() && bi != bj && (
            #[trigger] s1.waiting[bi].ids.contains(x)) implies !(
            #[trigger] s1.waiting[bj].ids.contains(x)) by {
            if s1.waiting[bj].ids.contains(x) {
                if bi == n {
                    assert(x == conn);
                    assert(s0.waiting[bj].ids.contains(conn));
                    assert(false);
                } else if bj == n {
                    assert(x == conn);
                    assert(s0.waiting[bi].ids.contains(conn));
                    assert(false);
                } else {
                    assert(s0.waiting[bi].ids.contains(x));
                    assert(s0.waiting[bj].ids.contains(x));
                }
            }
        }
    }
}

/// The display name a joining profile ends up with.
fn default_username(profile: &UserProfile) -> (r: String)
    ensures
        r@ == default_name(profile@),
{
    if !profile.username.as_str().is_empty() {
        profile.username.clone()
    } else {
        let uid = profile.user_id.as_str();
        let l = uid.unicode_len();
        let tak: usize = if l < 5 {
            l
        } else {
            5
        };
        let head = uid.substring_char(0, tak);
        proof {
            assert(head@ =~= profile@.user_id.take(tak as int));
        }
        String::from_str("User-").concat(head)
    }
}

/// The index of the waiting bucket under key `pref`, if one exists.
fn find_bucket_index(waiting: &Vec<WaitBucket>, pref: &str) -> (r: Option<usize>)
    ensures
        match r {
            Some(bi) => bi < waiting@.len() && waiting@[bi as int]@.preference == pref@,
            None => forall|bi: int|
                0 <= bi < waiting@.len() ==> (#[trigger] waiting@[bi]@).preference != pref@,
        },
{
    let n = waiting.len();
    let mut bi: usize = 0;
    while bi < n
        invariant
            0 <= bi <= n,
            n == waiting@.len(),
            forall|k: int| 0 <= k < bi ==> (#[trigger] waiting@[k]@).preference != pref@,
        decreases n - bi,
    {
        if crate::text::str_eq(waiting[bi].preference.as_str(), pref) {
            return Some(bi);
        }
        bi += 1;
    }
    None
}

impl ChatServer {
    /// Binds user `conn` to partner `p`; nothing else changes.
    fn bind_partner(&mut self, conn: u64, p: u64)
        requires
            old(self)@.users.contains_key(conn),
        ensures
            final(self)@.next_id == old(self)@.next_id,
            final(self)@.sessions == old(self)@.sessions,
            final(self)@.waiting == old(self)@.waiting,
            final(self)@.groups == old(self)@.groups,
            final(self)@.users == old(self)@.users.insert(
                conn,
                with_partner(old(self)@.users[conn], p),
            ),
    {
        match self.users.remove(&conn) {
            Some(mut u) => {
                u.partner_id = Some(p);
                self.users.insert(conn, u);
                proof {
                    assert(self@.users =~= old(self)@.users.insert(
                        conn,
                        with_partner(old(self)@.users[conn], p),
                    ));
                }
            }
            None => {
                proof {
                    assert(false);
                }
            }
        }
    }

    /// Pairs `u1` and `u2`: binds each as the other's partner, removes both
    /// from every waiting bucket, and confirms both ends with
    /// `chat_started`.
    fn connect_users(&mut self, u1: u64, u2: u64) -> (r: Vec<Delivery>)
        requires
            inv(old(self)@),
            u1 != u2,
            old(self)@.users.contains_key(u1),
            old(self)@.users.contains_key(u2),
            old(self)@.users[u1].partner is None,
            old(self)@.users[u2].partner is None,
            old(self)@.users[u1].room_type != "group"@,
            old(self)@.users[u2].room_type != "group"@,
        ensures
            inv(final(self)@),
            paired_post(old(self)@, final(self)@, u1, u2, views_of(r@)),
    {
        let ghost pre = self@;
        self.bind_partner(u1, u2);
        self.bind_partner(u2, u1);
        proof {
            assert(self@.users == pre.users.insert(u1, with_partner(pre.users[u1], u2)).insert(
                u2,
                with_partner(pre.users[u2], u1),
            ));
        }
        self.purge_waiting(u1);
        self.purge_waiting(u2);
        proof {
            assert forall|bi: int|
                0 <= bi < pre.waiting.len() implies (#[trigger] self@.waiting[bi]).preference
                == pre.waiting[bi].preference && self@.waiting[bi].ids
                == pre.waiting[bi].ids.filter(ne_pred(u1)).filter(ne_pred(u2)) by {}
        }
        let mut out: Vec<Delivery> = Vec::new();
        if self.has_session(u1) {
            let d = Delivery { to: u1, event: ServerEvent::ChatStarted { group_code: None } };
            proof {
                lemma_views_push(out@, d);
            }
            out.push(d);
        }
        if self.has_session(u2) {
            let d = Delivery { to: u2, event: ServerEvent::ChatStarted { group_code: None } };
            proof {
                lemma_views_push(out@, d);
            }
            out.push(d);
        }
        proof {
            let cs1: Seq<DeliveryV> = if pre.sessions.contains(u1) {
                seq![DeliveryV { to: u1, event: EventV::ChatStarted { group_code: None } }]
            } else {
                Seq::<DeliveryV>::empty()
            };
            let cs2: Seq<DeliveryV> = if pre.sessions.contains(u2) {
                seq![DeliveryV { to: u2, event: EventV::ChatStarted { group_code: None } }]
            } else {
                Seq::<DeliveryV>::empty()
            };
            assert(views_of(out@) =~= cs1 + cs2);
            lemma_connect_inv(pre, self@, u1, u2);
            assert(paired_post(pre, self@, u1, u2, views_of(out@)));
        }
        out
    }

    /// Runs the matchmaking algorithm for pairwise joiner `conn`: pairs it
    /// with a uniformly chosen compatible waiting candidate, or enqueues it
    /// into its own preference bucket and answers `waiting_for_match`.
    fn find_match(&mut self, conn: u64) -> (r: Vec<Delivery>)
        requires
            inv(old(self)@),
            old(self)@.users.contains_key(conn),
            old(self)@.users[conn].room_type != "group"@,
            old(self)@.users[conn].partner is None,
            old(self)@.users[conn].group is None,
            !old(self)@.in_waiting(conn),
        ensures
            inv(final(self)@),
            pair_join_post(old(self)@, final(self)@, conn, views_of(r@)),
    {
        let ghost pre = self@;
        let pref = match self.users.get(&conn) {
            Some(u) => u.preference.clone(),
            None => {
                proof {
                    assert(false);
                }
                String::new()
            }
        };
        let ghost prefv = pre.users[conn].preference;
        proof {
            assert(pref@ == prefv);
        }
        let bi_opt = find_bucket_index(&self.waiting, pref.as_str());
        match bi_opt {
            None => {
                proof {
                    if has_bucket(pre, prefv) {
                        let bj = bucket_index(pre, prefv);
                        assert(pre.waiting[bj] == self.waiting@[bj]@);
                        assert(false);
                    }
                    assert(match_pool(pre, prefv) == Seq::<u64>::empty());
                }
                let mut ids: Vec<u64> = Vec::new();
                ids.push(conn);
                let b = WaitBucket { preference: pref, ids };
                self.waiting.push(b);
                proof {
                    assert(self@.waiting =~= pre.waiting.push(
                        BucketV { preference: prefv, ids: seq![conn] },
                    ));
                }
                let mut out: Vec<Delivery> = Vec::new();
                if self.has_session(conn) {
                    let d = Delivery { to: conn, event: ServerEvent::WaitingForMatch };
                    proof {
                        lemma_views_push(out@, d);
                    }
                    out.push(d);
                }
                proof {
                    if pre.sessions.contains(conn) {
                        assert(views_of(out@) =~= seq![
                            DeliveryV { to: conn, event: EventV::WaitingForMatch },
                        ]);
                    } else {
                        assert(views_of(out@) =~= Seq::<DeliveryV>::empty());
                    }
                    assert(enqueued_post(pre, self@, conn, views_of(out@)));
                    lemma_enqueue_inv(pre, self@, conn);
                }
                out
            }
            Some(bi) => {
                proof {
                    assert(self@.waiting[bi as int] == self.waiting@[bi as int]@);
                    assert(pre.waiting[bi as int].preference == prefv);
                    assert(has_bucket(pre, prefv));
                    let bj = bucket_index(pre, prefv);
                    assert(0 <= bj < pre.waiting.len() && pre.waiting[bj].preference == prefv);
                    assert(bj == bi as int);
                }
                let ghost bucket_ids = pre.waiting[bi as int].ids;
                let n = self.waiting[bi].ids.len();
                let mut pool: Vec<u64> = Vec::new();
                proof {
                    reveal(Seq::filter);
                    assert(bucket_ids.take(0) =~= Seq::<u64>::empty());
                }
                let mut i: usize = 0;
                while i < n
                    invariant
                        0 <= i <= n,
                        self@ == pre,
                        0 <= bi < pre.waiting.len(),
                        bucket_ids == pre.waiting[bi as int].ids,
                        self.waiting@[bi as int]@ == pre.waiting[bi as int],
                        n == bucket_ids.len(),
                        pref@ == prefv,
                        pre.users.contains_key(conn),
                        prefv == pre.users[conn].preference,
                        pool@ == bucket_ids.take(i as int).filter(pool_pred(pre, prefv)),
                    decreases n - i,
                {
                    proof {
                        lemma_filter_take_step(bucket_ids, pool_pred(pre, prefv), i as int);
                    }
                    let cand = self.waiting[bi].ids[i];
                    proof {
                        assert(cand == bucket_ids[i as int]);
                    }
                    let accepted = match self.users.get(&cand) {
                        Some(cu) => {
                            if crate::text::str_eq(pref.as_str(), "male") {
                                crate::text::str_eq(cu.gender.as_str(), "male")
                            } else if crate::text::str_eq(pref.as_str(), "female") {
                                crate::text::str_eq(cu.gender.as_str(), "female")
                            } else {
                                false
                            }
                        }
                        None => false,
                    };
                    proof {
                        assert(accepted == pool_pred(pre, prefv)(cand));
                    }
                    if accepted {
                        pool.push(cand);
                    }
                    i += 1;
                }
                proof {
                    assert(bucket_ids.take(n as int) =~= bucket_ids);
                    assert(pool@ == match_pool(pre, prefv));
                }
                if pool.len() > 0 {
                    let idx = crate::rng::pick_index(pool.len());
                    let partner = pool[idx];
                    proof {
                        assert(pool@[idx as int] == partner);
                        assert(pool@.contains(partner));
                        lemma_filter_membership(bucket_ids, pool_pred(pre, prefv));
                        assert(bucket_ids.contains(partner));
                        let j = choose|j: int| 0 <= j < bucket_ids.len() && bucket_ids[j]
                            == partner;
                        assert(bucket_entry_inv(pre, bi as int, j));
                        assert(partner != conn) by {
                            if partner == conn {
                                assert(pre.in_waiting(conn));
                            }
                        }
                    }
                    let out = self.connect_users(conn, partner);
                    proof {
                        assert(paired_post(pre, self@, conn, partner, views_of(out@)));
                        assert(pair_join_post(pre, self@, conn, views_of(out@)));
                    }
                    out
                } else {
                    let mut b = self.waiting.remove(bi);
                    b.ids.push(conn);
                    self.waiting.insert(bi, b);
                    proof {
                        assert(self@.waiting =~= pre.waiting.update(
                            bi as int,
                            BucketV { preference: prefv, ids: bucket_ids.push(conn) },
                        ));
                    }
                    let mut out: Vec<Delivery> = Vec::new();
                    if self.has_session(conn) {
                        let d = Delivery { to: conn, event: ServerEvent::WaitingForMatch };
                        proof {
                            lemma_views_push(out@, d);
                        }
                        out.push(d);
                    }
                    proof {
                        if pre.sessions.contains(conn) {
                            assert(views_of(out@) =~= seq![
                                DeliveryV { to: conn, event: EventV::WaitingForMatch },
                            ]);
                        } else {
                            assert(views_of(out@) =~= Seq::<DeliveryV>::empty());
                        }
                        assert(enqueued_post(pre, self@, conn, views_of(out@)));
                        lemma_enqueue_inv(pre, self@, conn);
                    }
                    out
                }
            }
        }
    }

    /// Creates the session a joining profile describes and runs the join
    /// algorithm it selects: matchmaking for pairwise rooms, and create,
    /// join-by-code or random (the default) for group rooms. A connection
    /// that still holds session state first leaves it, exactly as
    /// `disconnect_chat` would, so the relationship invariants survive a
    /// repeated join.
    pub fn join_chat(&mut self, conn: u64, profile: UserProfile) -> (r: Vec<Delivery>)
        requires
            inv(old(self)@),
        ensures
            inv(final(self)@),
            final(self)@.sessions == old(self)@.sessions,
            final(self)@.next_id == old(self)@.next_id,
            exists|mid: StateV, d1: Seq<DeliveryV>, d2: Seq<DeliveryV>|
                {
                    &&& #[trigger] cascade_effect(old(self)@, mid, conn, d1)
                    &&& #[trigger] join_post(mid, final(self)@, conn, profile@, d2)
                    &&& views_of(r@) == d1 + d2
                },
            is_fresh(old(self)@, conn) ==> join_post(
                old(self)@,
                final(self)@,
                conn,
                profile@,
                views_of(r@),
            ),
    {
        let ghost pre = self@;
        let mut out = self.handle_disconnect(conn);
        proof {
            if is_fresh(pre, conn) {
                assert(self@.users =~= pre.users);
                assert forall|bi: int|
                    0 <= bi < self@.waiting.len() implies self@.waiting[bi]
                    == pre.waiting[bi] by {
                    assert forall|i: int|
                        0 <= i < pre.waiting[bi].ids.len() implies ne_pred(conn)(
                        #[trigger] pre.waiting[bi].ids[i]) by {
                        if pre.waiting[bi].ids[i] == conn {
                            assert(pre.waiting[bi].ids.contains(conn));
                            assert(pre.in_waiting(conn));
                        }
                    }
                    lemma_filter_all(pre.waiting[bi].ids, ne_pred(conn));
                }
                assert(self@.waiting =~= pre.waiting);
                assert(self@ == pre);
                assert(views_of(out@) =~= Seq::<DeliveryV>::empty());
                assert(views_of(out@).len() == out@.len());
                assert(out@.len() == 0);
                assert(out@ =~= Seq::<Delivery>::empty());
            }
        }
        let ghost cascaded = self@;
        let uname = default_username(&profile);
        let user = User {
            user_id: profile.user_id.clone(),
            username: uname,
            gender: profile.gender.clone(),
            preference: profile.preference.clone(),
            room_type: profile.room_type.clone(),
            partner_id: None,
            group_id: None,
        };
        proof {
            assert(user@ == fresh_user(profile@));
        }
        self.users.insert(conn, user);
        proof {
            assert(self@.users =~= cascaded.users.insert(conn, fresh_user(profile@)));
            assert(!cascaded.users.contains_key(conn));
            assert(!cascaded.in_waiting(conn)) by {
                if cascaded.in_waiting(conn) {
                    let bj = choose|bj: int|
                        0 <= bj < cascaded.waiting.len() && (
                        #[trigger] cascaded.waiting[bj]).ids.contains(conn);
                    crate::server::lemma_filter_membership(
                        pre.waiting[bj].ids,
                        ne_pred(conn),
                    );
                }
            }
            lemma_insert_fresh_inv(cascaded, self@, conn, fresh_user(profile@));
        }
        let ghost su = self@;
        let is_group = crate::text::str_eq(profile.room_type.as_str(), "group");
        let mut extra: Vec<Delivery>;
        if is_group {
            let method_is_create = match &profile.group_join_method {
                Some(m) => crate::text::str_eq(m.as_str(), "create"),
                None => false,
            };
            let method_is_join = match &profile.group_join_method {
                Some(m) => crate::text::str_eq(m.as_str(), "join"),
                None => false,
            };
            if method_is_create {
                extra = self.create_new_group(conn);
            } else if method_is_join {
                match &profile.group_code {
                    Some(code) => {
                        let c = code.clone();
                        extra = self.join_group_by_code(conn, c.as_str());
                    }
                    None => {
                        extra = self.join_random_group(conn);
                    }
                }
            } else {
                extra = self.join_random_group(conn);
            }
        } else {
            extra = self.find_match(conn);
        }
        let ghost extrav = extra@;
        let ghost d1 = views_of(out@);
        out.append(&mut extra);
        proof {
            assert(su == (StateV {
                users: cascaded.users.insert(conn, fresh_user(profile@)),
                ..cascaded
            }));
            assert(join_post(cascaded, self@, conn, profile@, views_of(extrav)));
            assert(views_of(out@) =~= d1 + views_of(extrav));
            assert(cascade_effect(pre, cascaded, conn, d1) && join_post(
                cascaded,
                self@,
                conn,
                profile@,
                views_of(extrav),
            ) && views_of(out@) == d1 + views_of(extrav));
            if is_fresh(pre, conn) {
                assert(out@ =~= extrav);
                assert(su == (StateV {
                    users: pre.users.insert(conn, fresh_user(profile@)),
                    ..pre
                }));
                assert(join_post(pre, self@, conn, profile@, views_of(out@)));
            }
        }
        out
    }
}

} // verus!
