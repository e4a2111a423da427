//! The session coordinator: the single writer that owns connection
//! registration, user sessions, the pairwise waiting pool and group
//! membership. Every operation mutates the state in place and reports the
//! outbound events it produced as a vector of `Delivery` values; the caller
//! owns the actual per-connection queues.
//!
//! Contracts are stated over `StateV`, the mathematical view of the state:
//! maps, sequences and sets of plain values.

use vstd::prelude::*;
use std::collections::HashMap;
use std::collections::HashSet;
use crate::envelope::Delivery;
use crate::envelope::DeliveryV;
use crate::envelope::EventV;
use crate::envelope::ServerEvent;
use crate::envelope::views_of;
use crate::fanout::fan_pair;
use crate::text::opt_view;

verus! {

broadcast use vstd::std_specs::hash::group_hash_axioms;

/// One user session, bound to a connection.
pub struct User {
    pub user_id: String,
    pub username: String,
    pub gender: String,
    pub preference: String,
    pub room_type: String,
    pub partner_id: Option<u64>,
    pub group_id: Option<String>,
}

/// One group conversation: a member-ordered list of connections and the
/// index-aligned list of their display names.
pub struct Group {
    pub code: String,
    pub members: Vec<u64>,
    pub usernames: Vec<String>,
}

/// The connections waiting for a pairwise match under one preference key.
pub struct WaitBucket {
    pub preference: String,
    pub ids: Vec<u64>,
}

/// The coordinator's state: the registry of live connections, the user
/// sessions, the waiting pool and the groups, plus the next fresh
/// connection identifier.
pub struct ChatServer {
    pub next_id: u64,
    pub sessions: HashSet<u64>,
    pub users: HashMap<u64, User>,
    pub waiting: Vec<WaitBucket>,
    pub groups: Vec<Group>,
}

/// The view of a user session.
pub struct UserV {
    pub user_id: Seq<char>,
    pub username: Seq<char>,
    pub gender: Seq<char>,
    pub preference: Seq<char>,
    pub room_type: Seq<char>,
    pub partner: Option<u64>,
    pub group: Option<Seq<char>>,
}

/// The view of a group.
pub struct GroupV {
    pub code: Seq<char>,
    pub members: Seq<u64>,
    pub usernames: Seq<Seq<char>>,
}

/// The view of one waiting-pool bucket.
pub struct BucketV {
    pub preference: Seq<char>,
    pub ids: Seq<u64>,
}

/// The view of the whole coordinator state.
pub struct StateV {
    pub next_id: u64,
    pub sessions: Set<u64>,
    pub users: Map<u64, UserV>,
    pub waiting: Seq<BucketV>,
    pub groups: Seq<GroupV>,
}

impl View for User {
    type V = UserV;

    open spec fn view(&self) -> UserV {
        UserV {
            user_id: self.user_id@,
            username: self.username@,
            gender: self.gender@,
            preference: self.preference@,
            room_type: self.room_type@,
            partner: self.partner_id,
            group: opt_view(self.group_id),
        }
    }
}

impl View for Group {
    type V = GroupV;

    open spec fn view(&self) -> GroupV {
        GroupV { code: self.code@, members: self.members@, usernames: self.usernames.deep_view() }
    }
}

impl View for WaitBucket {
    type V = BucketV;

    open spec fn view(&self) -> BucketV {
        BucketV { preference: self.preference@, ids: self.ids@ }
    }
}

impl View for ChatServer {
    type V = StateV;

    open spec fn view(&self) -> StateV {
        StateV {
            next_id: self.next_id,
            sessions: self.sessions@,
            users: self.users@.map_values(|u: User| u@),
            waiting: self.waiting@.map_values(|b: WaitBucket| b@),
            groups: self.groups@.map_values(|g: Group| g@),
        }
    }
}

impl StateV {
    /// The identifiers the coordinator has handed out so far.
    pub open spec fn minted(self) -> Set<u64> {
        Set::new(|i: u64| i < self.next_id)
    }

    /// Whether `id` sits in some waiting-pool bucket.
    pub open spec fn in_waiting(self, id: u64) -> bool {
        exists|bi: int|
            0 <= bi < self.waiting.len() && (#[trigger] self.waiting[bi]).ids.contains(id)
    }

    /// Whether some group is named `code`.
    pub open spec fn has_group(self, code: Seq<char>) -> bool {
        exists|gi: int| 0 <= gi < self.groups.len() && (#[trigger] self.groups[gi]).code == code
    }

    /// The index of the group named `code`.
    pub open spec fn group_index(self, code: Seq<char>) -> int {
        choose|gi: int|
            0 <= gi < self.groups.len() && (#[trigger] self.groups[gi]).code == code
    }
}

/// Every registered connection was minted by the coordinator.
pub open spec fn sessions_inv(s: StateV) -> bool {
    forall|id: u64| #[trigger] s.sessions.contains(id) ==> id < s.next_id
}

/// One waiting-pool entry: a real user, unpartnered, filed under its own
/// preference.
pub open spec fn bucket_entry_inv(s: StateV, bi: int, i: int) -> bool {
    let id = s.waiting[bi].ids[i];
    &&& s.users.contains_key(id)
    &&& s.users[id].partner is None
    &&& s.users[id].room_type != "group"@
    &&& s.users[id].preference == s.waiting[bi].preference
}

/// The waiting pool: distinct bucket keys, sound entries, and each
/// connection in at most one place.
pub open spec fn waiting_inv(s: StateV) -> bool {
    &&& forall|bi: int, bj: int|
        0 <= bi < s.waiting.len() && 0 <= bj < s.waiting.len() && bi != bj ==> (
        #[trigger] s.waiting[bi].preference) != (#[trigger] s.waiting[bj].preference)
    &&& forall|bi: int, i: int|
        0 <= bi < s.waiting.len() && 0 <= i < s.waiting[bi].ids.len() ==> #[trigger] bucket_entry_inv(
            s,
            bi,
            i,
        )
    &&& forall|bi: int| 0 <= bi < s.waiting.len() ==> (#[trigger] s.waiting[bi]).ids.no_duplicates()
    &&& forall|bi: int, bj: int, x: u64|
        0 <= bi < s.waiting.len() && 0 <= bj < s.waiting.len() && bi != bj && (
        #[trigger] s.waiting[bi].ids.contains(x)) ==> !(#[trigger] s.waiting[bj].ids.contains(x))
}

/// Pairwise partner bindings are symmetric, never self-referential, and
/// only pairwise sessions hold one; pairwise sessions hold no group.
pub open spec fn partner_inv(s: StateV) -> bool {
    forall|id: u64| #[trigger] s.users.contains_key(id) ==> match s.users[id].partner {
        Some(p) => p != id && s.users.contains_key(p) && s.users[p].partner == Some(id),
        None => true,
    }
}

/// Room types separate the two relationship kinds: a group session holds no
/// partner and a pairwise session holds no group.
pub open spec fn room_inv(s: StateV) -> bool {
    forall|id: u64| #[trigger] s.users.contains_key(id) ==> {
        &&& (s.users[id].room_type == "group"@ ==> s.users[id].partner is None)
        &&& (s.users[id].room_type != "group"@ ==> s.users[id].group is None)
    }
}

/// One group member: a real group-room user bound to this group, whose
/// display name sits at the same index of the username list.
pub open spec fn member_inv(s: StateV, gi: int, i: int) -> bool {
    let g = s.groups[gi];
    let m = g.members[i];
    &&& s.users.contains_key(m)
    &&& s.users[m].group == Some(g.code)
    &&& s.users[m].username == g.usernames[i]
    &&& s.users[m].room_type == "group"@
}

/// One group: non-empty, parallel lists of equal length, distinct members,
/// each member sound.
pub open spec fn group_inv(s: StateV, gi: int) -> bool {
    let g = s.groups[gi];
    &&& g.members.len() == g.usernames.len()
    &&& g.members.len() > 0
    &&& g.members.no_duplicates()
    &&& forall|i: int| 0 <= i < g.members.len() ==> #[trigger] member_inv(s, gi, i)
}

/// All groups: distinct codes, each group sound.
pub open spec fn groups_inv(s: StateV) -> bool {
    &&& forall|gi: int, gj: int|
        0 <= gi < s.groups.len() && 0 <= gj < s.groups.len() && gi != gj ==> (
        #[trigger] s.groups[gi].code) != (#[trigger] s.groups[gj].code)
    &&& forall|gi: int| 0 <= gi < s.groups.len() ==> #[trigger] group_inv(s, gi)
}

/// A session's group identifier references a group that lists it.
pub open spec fn user_group_inv(s: StateV) -> bool {
    forall|id: u64| #[trigger] s.users.contains_key(id) ==> match s.users[id].group {
        Some(c) => exists|gi: int|
            0 <= gi < s.groups.len() && (#[trigger] s.groups[gi]).code == c
                && s.groups[gi].members.contains(id),
        None => true,
    }
}

/// The coordinator's well-formedness invariant: every public operation
/// requires it and re-establishes it.
pub open spec fn inv(s: StateV) -> bool {
    &&& sessions_inv(s)
    &&& waiting_inv(s)
    &&& partner_inv(s)
    &&& room_inv(s)
    &&& groups_inv(s)
    &&& user_group_inv(s)
}

/// `u` with its partner binding cleared.
pub open spec fn unpartnered(u: UserV) -> UserV {
    UserV { partner: None, ..u }
}

/// The predicate "is not `x`", shared between specs and proofs so that the
/// same closure value appears everywhere.
pub open spec fn ne_pred(x: u64) -> spec_fn(u64) -> bool {
    |y: u64| y != x
}

/// The waiting pool after `conn` left every bucket: same buckets, same
/// keys, same order, with every occurrence of `conn` gone.
pub open spec fn waiting_purged(pre: Seq<BucketV>, post: Seq<BucketV>, conn: u64) -> bool {
    &&& post.len() == pre.len()
    &&& forall|bi: int|
        0 <= bi < pre.len() ==> (#[trigger] post[bi]).preference == pre[bi].preference
    &&& forall|bi: int|
        0 <= bi < pre.len() ==> (#[trigger] post[bi]).ids == pre[bi].ids.filter(ne_pred(conn))
}

/// The group side of the disconnect cascade, for a leaving session bound to
/// group code `c`: the leaver's row disappears from both parallel lists; a
/// group left empty is deleted silently, otherwise the remaining members
/// are told who left and get the refreshed roster.
pub open spec fn group_removed_effect(
    pre: StateV,
    post: StateV,
    conn: u64,
    u: UserV,
    c: Seq<char>,
    deliv: Seq<DeliveryV>,
) -> bool {
    if pre.has_group(c) {
        let gi = pre.group_index(c);
        let g = pre.groups[gi];
        if g.members.len() <= 1 {
            &&& post.groups == pre.groups.remove(gi)
            &&& deliv == Seq::<DeliveryV>::empty()
        } else {
            let k = choose|k: int| 0 <= k < g.members.len() && g.members[k] == conn;
            let rest = GroupV {
                code: g.code,
                members: g.members.remove(k),
                usernames: g.usernames.remove(k),
            };
            &&& g.members.contains(conn)
            &&& post.groups == pre.groups.update(gi, rest)
            &&& deliv == fan_pair(
                rest.members,
                pre.sessions,
                EventV::UserLeftGroup { username: u.username },
                EventV::GroupMembersUpdate { usernames: rest.usernames },
            )
        }
    } else {
        &&& post.groups == pre.groups
        &&& deliv == Seq::<DeliveryV>::empty()
    }
}

/// The pairwise side of the disconnect cascade: the partner, if one is
/// bound, is notified (when it still has a queue) and unbound.
pub open spec fn pair_removed_effect(
    pre: StateV,
    post: StateV,
    conn: u64,
    u: UserV,
    deliv: Seq<DeliveryV>,
) -> bool {
    &&& post.groups == pre.groups
    &&& match u.partner {
        Some(p) => {
            &&& post.users == pre.users.remove(conn).insert(p, unpartnered(pre.users[p]))
            &&& deliv == (if pre.sessions.contains(p) {
                seq![DeliveryV { to: p, event: EventV::PartnerDisconnected }]
            } else {
                Seq::<DeliveryV>::empty()
            })
        }
        None => {
            &&& post.users == pre.users.remove(conn)
            &&& deliv == Seq::<DeliveryV>::empty()
        }
    }
}

/// The whole disconnect cascade for `conn`, covering every case: an unknown
/// session is a no-op, a grouped session leaves its group, a paired session
/// frees its partner, and in every case `conn` leaves the waiting pool.
/// The session registry is untouched; `disconnect` handles it separately.
pub open spec fn cascade_effect(
    pre: StateV,
    post: StateV,
    conn: u64,
    deliv: Seq<DeliveryV>,
) -> bool {
    &&& post.next_id == pre.next_id
    &&& post.sessions == pre.sessions
    &&& waiting_purged(pre.waiting, post.waiting, conn)
    &&& if !pre.users.contains_key(conn) {
        &&& post.users == pre.users
        &&& post.groups == pre.groups
        &&& deliv == Seq::<DeliveryV>::empty()
    } else {
        let u = pre.users[conn];
        if u.room_type == "group"@ {
            &&& post.users == pre.users.remove(conn)
            &&& match u.group {
                Some(c) => group_removed_effect(pre, post, conn, u, c, deliv),
                None => post.groups == pre.groups && deliv == Seq::<DeliveryV>::empty(),
            }
        } else {
            pair_removed_effect(pre, post, conn, u, deliv)
        }
    }
}

pub(crate) proof fn lemma_filter_take_step(s: Seq<u64>, p: spec_fn(u64) -> bool, i: int)
    requires
        0 <= i < s.len(),
    ensures
        s.take(i + 1).filter(p) == (if p(s[i]) {
            s.take(i).filter(p).push(s[i])
        } else {
            s.take(i).filter(p)
        }),
{
    reveal(Seq::filter);
    assert(s.take(i + 1).drop_last() =~= s.take(i));
    assert(s.take(i + 1).last() == s[i]);
}

/// A copy of `v` without the occurrences of `x`, in order.
pub(crate) fn filter_out_u64(v: &Vec<u64>, x: u64) -> (r: Vec<u64>)
    ensures
        r@ == v@.filter(ne_pred(x)),
{
    let n = v.len();
    let mut r: Vec<u64> = Vec::new();
    proof {
        reveal(Seq::filter);
        assert(v@.take(0) =~= Seq::<u64>::empty());
    }
    let mut i: usize = 0;
    while i < n
        invariant
            0 <= i <= n,
            n == v@.len(),
            r@ == v@.take(i as int).filter(ne_pred(x)),
        decreases n - i,
    {
        proof {
            lemma_filter_take_step(v@, ne_pred(x), i as int);
        }
        if v[i] != x {
            r.push(v[i]);
        }
        i += 1;
    }
    proof {
        assert(v@.take(n as int) =~= v@);
    }
    r
}

/// Everything a filtered sequence holds was in the original and satisfies
/// the predicate.
pub(crate) proof fn lemma_filter_membership(s: Seq<u64>, p: spec_fn(u64) -> bool)
    ensures
        forall|x: u64| #[trigger] s.filter(p).contains(x) ==> s.contains(x) && p(x),
    decreases s.len(),
{
    reveal(Seq::filter);
    if s.len() > 0 {
        lemma_filter_membership(s.drop_last(), p);
        let f = s.filter(p);
        assert forall|x: u64| #[trigger] f.contains(x) implies s.contains(x) && p(x) by {
            let f2 = s.drop_last().filter(p);
            let j = choose|j: int| 0 <= j < f.len() && f[j] == x;
            if p(s.last()) && j == f.len() - 1 {
                assert(x == s.last());
                assert(s[s.len() - 1] == x);
            } else {
                assert(f2[j] == x);
                assert(f2.contains(x));
                let k = choose|k: int|
                    0 <= k < s.drop_last().len() && s.drop_last()[k] == x;
                assert(s[k] == x);
            }
        }
    }
}

/// Filtering with a predicate every element satisfies changes nothing.
pub(crate) proof fn lemma_filter_all(s: Seq<u64>, p: spec_fn(u64) -> bool)
    requires
        forall|i: int| 0 <= i < s.len() ==> p(#[trigger] s[i]),
    ensures
        s.filter(p) == s,
    decreases s.len(),
{
    reveal(Seq::filter);
    if s.len() > 0 {
        assert(forall|i: int| 0 <= i < s.drop_last().len() ==> p(#[trigger] s.drop_last()[i]));
        lemma_filter_all(s.drop_last(), p);
        assert(s.drop_last().push(s.last()) =~= s);
    }
}

/// Filtering keeps a duplicate-free sequence duplicate-free.
pub(crate) proof fn lemma_filter_no_dup(s: Seq<u64>, p: spec_fn(u64) -> bool)
    requires
        s.no_duplicates(),
    ensures
        s.filter(p).no_duplicates(),
    decreases s.len(),
{
    reveal(Seq::filter);
    if s.len() > 0 {
        assert(s.drop_last().no_duplicates());
        lemma_filter_no_dup(s.drop_last(), p);
        lemma_filter_membership(s.drop_last(), p);
        if p(s.last()) {
            let f2 = s.drop_last().filter(p);
            assert(!f2.contains(s.last())) by {
                if f2.contains(s.last()) {
                    let k = choose|k: int|
                        0 <= k < s.drop_last().len() && s.drop_last()[k] == s.last();
                    assert(s[k] == s[s.len() - 1]);
                    assert(false);
                }
            }
        }
    }
}

/// Removing the element at index `k` keeps every other element, adds
/// nothing, and keeps a duplicate-free sequence duplicate-free.
pub(crate) proof fn lemma_remove_at<A>(s: Seq<A>, k: int)
    requires
        0 <= k < s.len(),
    ensures
        forall|x: A| #[trigger] s.remove(k).contains(x) ==> s.contains(x),
        forall|x: A| s.contains(x) && x != s[k] ==> #[trigger] s.remove(k).contains(x),
        s.no_duplicates() ==> s.remove(k).no_duplicates() && !s.remove(k).contains(s[k]),
{
    s.remove_ensures(k);
    assert forall|x: A| #[trigger] s.remove(k).contains(x) implies s.contains(x) by {
        let j = choose|j: int| 0 <= j < s.remove(k).len() && s.remove(k)[j] == x;
        if j < k {
            assert(s[j] == x);
        } else {
            assert(s[j + 1] == x);
        }
    }
    assert forall|x: A| s.contains(x) && x != s[k] implies #[trigger] s.remove(k).contains(
        x,
    ) by {
        let j = choose|j: int| 0 <= j < s.len() && s[j] == x;
        if j < k {
            assert(s.remove(k)[j] == x);
        } else {
            assert(s.remove(k)[j - 1] == x);
        }
    }
    if s.no_duplicates() {
        assert forall|i: int, j: int|
            0 <= i < s.remove(k).len() && 0 <= j < s.remove(k).len() && i
                != j implies s.remove(k)[i] != s.remove(k)[j] by {
            let pi: int = if i < k {
                i
            } else {
                i + 1
            };
            let pj: int = if j < k {
                j
            } else {
                j + 1
            };
            assert(s.remove(k)[i] == s[pi]);
            assert(s.remove(k)[j] == s[pj]);
        }
        assert(!s.remove(k).contains(s[k])) by {
            if s.remove(k).contains(s[k]) {
                let j = choose|j: int| 0 <= j < s.remove(k).len() && s.remove(k)[j] == s[k];
                if j < k {
                    assert(s[j] == s[k]);
                } else {
                    assert(s[j + 1] == s[k]);
                }
                assert(false);
            }
        }
    }
}

/// The invariant only reads the session set through `sessions_inv`, so any
/// change that leaves users, waiting pool and groups alone preserves it as
/// long as the new session set stays below the new counter.
pub(crate) proof fn lemma_inv_same_core(s0: StateV, s1: StateV)
    requires
        inv(s0),
        s1.users == s0.users,
        s1.waiting == s0.waiting,
        s1.groups == s0.groups,
        forall|x: u64| #[trigger] s1.sessions.contains(x) ==> x < s1.next_id,
    ensures
        inv(s1),
{
    assert forall|bi: int, i: int|
        0 <= bi < s1.waiting.len() && 0 <= i
            < s1.waiting[bi].ids.len() implies #[trigger] bucket_entry_inv(s1, bi, i) by {
        assert(bucket_entry_inv(s0, bi, i));
    }
    assert forall|gi: int| 0 <= gi < s1.groups.len() implies #[trigger] group_inv(s1, gi) by {
        assert(group_inv(s0, gi));
        assert forall|i: int|
            0 <= i < s1.groups[gi].members.len() implies #[trigger] member_inv(s1, gi, i) by {
            assert(member_inv(s0, gi, i));
        }
    }
    assert(partner_inv(s1)) by {
        assert(partner_inv(s0));
    }
    assert(room_inv(s1)) by {
        assert(room_inv(s0));
    }
    assert(user_group_inv(s1)) by {
        assert(user_group_inv(s0));
    }
}

/// After the purge, the waiting pool is sound again provided every
/// surviving entry kept its user, its missing partner and its preference.
pub(crate) proof fn lemma_purged_waiting_inv(s0: StateV, s1: StateV, conn: u64)
    requires
        inv(s0),
        waiting_purged(s0.waiting, s1.waiting, conn),
        forall|x: u64|
            x != conn && #[trigger] s0.users.contains_key(x) ==> s1.users.contains_key(x)
                && s1.users[x].preference == s0.users[x].preference
                && s1.users[x].room_type == s0.users[x].room_type && (s0.users[x].partner
                is None ==> s1.users[x].partner is None),
    ensures
        waiting_inv(s1),
{
    assert forall|bi: int, x: u64|
        0 <= bi < s1.waiting.len() && #[trigger] s1.waiting[bi].ids.contains(
            x,
        ) implies s0.waiting[bi].ids.contains(x) && x != conn by {
        lemma_filter_membership(s0.waiting[bi].ids, ne_pred(conn));
    }
    assert forall|bi: int|
        0 <= bi < s1.waiting.len() implies (#[trigger] s1.waiting[bi]).ids.no_duplicates() by {
        lemma_filter_no_dup(s0.waiting[bi].ids, ne_pred(conn));
    }
    assert forall|bi: int, bj: int, x: u64|
        0 <= bi < s1.waiting.len() && 0 <= bj < s1.waiting.len() && bi != bj && (
        #[trigger] s1.waiting[bi].ids.contains(x)) implies !(#[trigger] s1.waiting[bj].ids.contains(
            x,
        )) by {
        if s1.waiting[bj].ids.contains(x) {
            assert(s0.waiting[bi].ids.contains(x));
            assert(s0.waiting[bj].ids.contains(x));
        }
    }
    assert forall|bi: int, i: int|
        0 <= bi < s1.waiting.len() && 0 <= i
            < s1.waiting[bi].ids.len() implies #[trigger] bucket_entry_inv(s1, bi, i) by {
        let x = s1.waiting[bi].ids[i];
        assert(s1.waiting[bi].ids.contains(x));
        assert(s0.waiting[bi].ids.contains(x) && x != conn);
        let j = choose|j: int| 0 <= j < s0.waiting[bi].ids.len() && s0.waiting[bi].ids[j] == x;
        assert(bucket_entry_inv(s0, bi, j));
    }
}

/// When users and groups are untouched, the relationship invariants carry
/// over unchanged.
pub(crate) proof fn lemma_cascade_inv_unknown(s0: StateV, s1: StateV)
    requires
        inv(s0),
        s1.users == s0.users,
        s1.groups == s0.groups,
    ensures
        partner_inv(s1),
        room_inv(s1),
        groups_inv(s1),
        user_group_inv(s1),
{
    assert(partner_inv(s1)) by {
        assert(partner_inv(s0));
    }
    assert(room_inv(s1)) by {
        assert(room_inv(s0));
    }
    assert forall|gi: int| 0 <= gi < s1.groups.len() implies #[trigger] group_inv(s1, gi) by {
        assert(group_inv(s0, gi));
        assert forall|i: int|
            0 <= i < s1.groups[gi].members.len() implies #[trigger] member_inv(s1, gi, i) by {
            assert(member_inv(s0, gi, i));
        }
    }
    assert(user_group_inv(s1)) by {
        assert(user_group_inv(s0));
    }
}

/// The pairwise half of the cascade — the leaver disappears and its
/// partner, if any, is unbound — preserves the relationship invariants.
pub(crate) proof fn lemma_cascade_inv_pair(s0: StateV, s1: StateV, conn: u64)
    requires
        inv(s0),
        s0.users.contains_key(conn),
        s0.users[conn].room_type != "group"@,
        s1.groups == s0.groups,
        ({
            match s0.users[conn].partner {
                Some(p) => s1.users == s0.users.remove(conn).insert(
                    p,
                    unpartnered(s0.users[p]),
                ),
                None => s1.users == s0.users.remove(conn),
            }
        }),
    ensures
        partner_inv(s1),
        room_inv(s1),
        groups_inv(s1),
        user_group_inv(s1),
        forall|x: u64|
            x != conn && #[trigger] s0.users.contains_key(x) ==> s1.users.contains_key(x)
                && s1.users[x].preference == s0.users[x].preference
                && s1.users[x].room_type == s0.users[x].room_type && (s0.users[x].partner
                is None ==> s1.users[x].partner is None),
{
    let u = s0.users[conn];
    match u.partner {
        Some(p) => {
            assert(p != conn && s0.users.contains_key(p) && s0.users[p].partner == Some(conn));
            assert(s0.users[p].room_type != "group"@) by {
                if s0.users[p].room_type == "group"@ {
                    assert(s0.users[p].partner is None);
                }
            }
            assert(s0.users[p].group is None);
            assert forall|id: u64| #[trigger] s1.users.contains_key(id) implies (match s1.users[id].partner {
                Some(q) => q != id && s1.users.contains_key(q) && s1.users[q].partner == Some(
                    id,
                ),
                None => true,
            }) by {
                if id != p {
                    assert(s1.users[id] == s0.users[id]);
                    match s0.users[id].partner {
                        Some(q) => {
                            assert(q != id && s0.users.contains_key(q) && s0.users[q].partner
                                == Some(id));
                            if q == conn {
                                assert(id == p);
                                assert(false);
                            }
                            if q == p {
                                assert(id == conn);
                                assert(false);
                            }
                            assert(s1.users.contains_key(q) && s1.users[q] == s0.users[q]);
                        }
                        None => {}
                    }
                }
            }
            assert forall|id: u64| #[trigger] s1.users.contains_key(id) implies {
                &&& (s1.users[id].room_type == "group"@ ==> s1.users[id].partner is None)
                &&& (s1.users[id].room_type != "group"@ ==> s1.users[id].group is None)
            } by {
                if id != p {
                    assert(s1.users[id] == s0.users[id]);
                }
            }
            assert forall|gi: int|
                0 <= gi < s1.groups.len() implies #[trigger] group_inv(s1, gi) by {
                assert(group_inv(s0, gi));
                assert forall|i: int|
                    0 <= i < s1.groups[gi].members.len() implies #[trigger] member_inv(
                    s1,
                    gi,
                    i,
                ) by {
                    assert(member_inv(s0, gi, i));
                    let m = s1.groups[gi].members[i];
                    assert(s0.users[m].room_type == "group"@);
                    assert(m != conn && m != p);
                    assert(s1.users.contains_key(m) && s1.users[m] == s0.users[m]);
                }
            }
            assert forall|id: u64| #[trigger] s1.users.contains_key(id) implies (match s1.users[id].group {
                Some(c) => exists|gi: int|
                    0 <= gi < s1.groups.len() && (#[trigger] s1.groups[gi]).code == c
                        && s1.groups[gi].members.contains(id),
                None => true,
            }) by {
                if id == p {
                    assert(s1.users[p].group is None);
                } else {
                    assert(s1.users[id] == s0.users[id]);
                    assert(s0.users.contains_key(id));
                    match s0.users[id].group {
                        Some(c) => {
                            let gi = choose|gi: int|
                                0 <= gi < s0.groups.len() && (#[trigger] s0.groups[gi]).code
                                    == c && s0.groups[gi].members.contains(id);
                            assert(0 <= gi < s1.groups.len() && s1.groups[gi].code == c
                                && s1.groups[gi].members.contains(id));
                        }
                        None => {}
                    }
                }
            }
        }
        None => {
            assert forall|id: u64| #[trigger] s1.users.contains_key(id) implies (match s1.users[id].partner {
                Some(q) => q != id && s1.users.contains_key(q) && s1.users[q].partner == Some(
                    id,
                ),
                None => true,
            }) by {
                assert(s1.users[id] == s0.users[id]);
                match s0.users[id].partner {
                    Some(q) => {
                        assert(q != id && s0.users.contains_key(q) && s0.users[q].partner
                            == Some(id));
                        if q == conn {
                            assert(s0.users[conn].partner == Some(id));
                            assert(false);
                        }
                        assert(s1.users.contains_key(q) && s1.users[q] == s0.users[q]);
                    }
                    None => {}
                }
            }
            assert forall|id: u64| #[trigger] s1.users.contains_key(id) implies {
                &&& (s1.users[id].room_type == "group"@ ==> s1.users[id].partner is None)
                &&& (s1.users[id].room_type != "group"@ ==> s1.users[id].group is None)
            } by {
                assert(s1.users[id] == s0.users[id]);
            }
            assert forall|gi: int|
                0 <= gi < s1.groups.len() implies #[trigger] group_inv(s1, gi) by {
                assert(group_inv(s0, gi));
                assert forall|i: int|
                    0 <= i < s1.groups[gi].members.len() implies #[trigger] member_inv(
                    s1,
                    gi,
                    i,
                ) by {
                    assert(member_inv(s0, gi, i));
                    let m = s1.groups[gi].members[i];
                    assert(s0.users[m].room_type == "group"@);
                    assert(m != conn);
                    assert(s1.users.contains_key(m) && s1.users[m] == s0.users[m]);
                }
            }
            assert forall|id: u64| #[trigger] s1.users.contains_key(id) implies (match s1.users[id].group {
                Some(c) => exists|gi: int|
                    0 <= gi < s1.groups.len() && (#[trigger] s1.groups[gi]).code == c
                        && s1.groups[gi].members.contains(id),
                None => true,
            }) by {
                assert(s1.users[id] == s0.users[id]);
                assert(s0.users.contains_key(id));
                match s0.users[id].group {
                    Some(c) => {
                        let gi = choose|gi: int|
                            0 <= gi < s0.groups.len() && (#[trigger] s0.groups[gi]).code == c
                                && s0.groups[gi].members.contains(id);
                        assert(0 <= gi < s1.groups.len() && s1.groups[gi].code == c
                            && s1.groups[gi].members.contains(id));
                    }
                    None => {}
                }
            }
        }
    }
}

/// The group half of the cascade — the leaver disappears from the user map
/// and from its group's parallel lists, and an emptied group is deleted —
/// preserves the relationship invariants.
#[verifier::rlimit(60)]
pub(crate) proof fn lemma_cascade_inv_group(
    s0: StateV,
    s1: StateV,
    conn: u64,
    deliv: Seq<DeliveryV>,
)
    requires
        inv(s0),
        s0.users.contains_key(conn),
        s0.users[conn].room_type == "group"@,
        s1.users == s0.users.remove(conn),
        ({
            match s0.users[conn].group {
                Some(c) => group_removed_effect(s0, s1, conn, s0.users[conn], c, deliv),
                None => s1.groups == s0.groups,
            }
        }),
    ensures
        partner_inv(s1),
        room_inv(s1),
        groups_inv(s1),
        user_group_inv(s1),
        forall|x: u64|
            x != conn && #[trigger] s0.users.contains_key(x) ==> s1.users.contains_key(x)
                && s1.users[x].preference == s0.users[x].preference
                && s1.users[x].room_type == s0.users[x].room_type && (s0.users[x].partner
                is None ==> s1.users[x].partner is None),
{
    let u = s0.users[conn];
    assert(u.partner is None);
    assert forall|id: u64| #[trigger] s1.users.contains_key(id) implies id != conn
        && s0.users.contains_key(id) && s1.users[id] == s0.users[id] by {}
    assert forall|id: u64| #[trigger] s1.users.contains_key(id) implies (match s1.users[id].partner {
        Some(q) => q != id && s1.users.contains_key(q) && s1.users[q].partner == Some(id),
        None => true,
    }) by {
        match s0.users[id].partner {
            Some(q) => {
                assert(q != id && s0.users.contains_key(q) && s0.users[q].partner == Some(id));
                if q == conn {
                    assert(s0.users[conn].partner == Some(id));
                    assert(false);
                }
            }
            None => {}
        }
    }
    assert forall|id: u64| #[trigger] s1.users.contains_key(id) implies {
        &&& (s1.users[id].room_type == "group"@ ==> s1.users[id].partner is None)
        &&& (s1.users[id].room_type != "group"@ ==> s1.users[id].group is None)
    } by {
        assert(s1.users[id] == s0.users[id]);
    }
    match u.group {
        None => {
            assert forall|gi: int|
                0 <= gi < s1.groups.len() implies #[trigger] group_inv(s1, gi) by {
                assert(group_inv(s0, gi));
                assert forall|i: int|
                    0 <= i < s1.groups[gi].members.len() implies #[trigger] member_inv(
                    s1,
                    gi,
                    i,
                ) by {
                    assert(member_inv(s0, gi, i));
                    let m = s1.groups[gi].members[i];
                    assert(s0.users[m].group is Some);
                    assert(m != conn);
                }
            }
            assert forall|id: u64| #[trigger] s1.users.contains_key(id) implies (match s1.users[id].group {
                Some(c2) => exists|gi: int|
                    0 <= gi < s1.groups.len() && (#[trigger] s1.groups[gi]).code == c2
                        && s1.groups[gi].members.contains(id),
                None => true,
            }) by {
                assert(s1.users[id] == s0.users[id]);
                assert(s0.users.contains_key(id));
                match s0.users[id].group {
                    Some(c2) => {
                        let gi = choose|gi: int|
                            0 <= gi < s0.groups.len() && (#[trigger] s0.groups[gi]).code == c2
                                && s0.groups[gi].members.contains(id);
                        assert(0 <= gi < s1.groups.len() && s1.groups[gi].code == c2
                            && s1.groups[gi].members.contains(id));
                    }
                    None => {}
                }
            }
        }
        Some(c) => {
            assert(user_group_inv(s0));
            let gw = choose|gi: int|
                0 <= gi < s0.groups.len() && (#[trigger] s0.groups[gi]).code == c
                    && s0.groups[gi].members.contains(conn);
            assert(s0.has_group(c));
            let gi = s0.group_index(c);
            assert(0 <= gi < s0.groups.len() && s0.groups[gi].code == c);
            assert(gi == gw);
            let g = s0.groups[gi];
            assert(group_inv(s0, gi));
            // a member of any other group is not `conn`: its bound code differs
            assert forall|a: int, i: int|
                0 <= a < s0.groups.len() && a != gi && 0 <= i
                    < s0.groups[a].members.len() implies s0.groups[a].members[i] != conn by {
                assert(group_inv(s0, a));
                assert(member_inv(s0, a, i));
                if s0.groups[a].members[i] == conn {
                    assert(s0.users[conn].group == Some(s0.groups[a].code));
                    assert(s0.groups[a].code != c);
                }
            }
            if g.members.len() <= 1 {
                // the leaver was the whole group and the group is gone
                assert(s1.groups == s0.groups.remove(gi));
                s0.groups.remove_ensures(gi);
                assert forall|a: int, b: int|
                    0 <= a < s1.groups.len() && 0 <= b < s1.groups.len() && a != b implies (
                    #[trigger] s1.groups[a].code) != (#[trigger] s1.groups[b].code) by {
                    let pa: int = if a < gi {
                        a
                    } else {
                        a + 1
                    };
                    let pb: int = if b < gi {
                        b
                    } else {
                        b + 1
                    };
                    assert(s1.groups[a] == s0.groups[pa]);
                    assert(s1.groups[b] == s0.groups[pb]);
                }
                assert forall|a: int|
                    0 <= a < s1.groups.len() implies #[trigger] group_inv(s1, a) by {
                    let pa: int = if a < gi {
                        a
                    } else {
                        a + 1
                    };
                    assert(s1.groups[a] == s0.groups[pa]);
                    assert(group_inv(s0, pa));
                    assert forall|i: int|
                        0 <= i < s1.groups[a].members.len() implies #[trigger] member_inv(
                        s1,
                        a,
                        i,
                    ) by {
                        assert(member_inv(s0, pa, i));
                        let m = s1.groups[a].members[i];
                        assert(m == s0.groups[pa].members[i]);
                        assert(m != conn);
                        assert(s1.users.contains_key(m) && s1.users[m] == s0.users[m]);
                    }
                }
                assert forall|id: u64| #[trigger] s1.users.contains_key(id) implies (match s1.users[id].group {
                    Some(c2) => exists|b: int|
                        0 <= b < s1.groups.len() && (#[trigger] s1.groups[b]).code == c2
                            && s1.groups[b].members.contains(id),
                    None => true,
                }) by {
                    assert(id != conn && s1.users[id] == s0.users[id]);
                    assert(s0.users.contains_key(id));
                    match s0.users[id].group {
                        Some(c2) => {
                            let b = choose|b: int|
                                0 <= b < s0.groups.len() && (#[trigger] s0.groups[b]).code
                                    == c2 && s0.groups[b].members.contains(id);
                            assert(b != gi) by {
                                if b == gi {
                                    let wi = choose|wi: int|
                                        0 <= wi < g.members.len() && g.members[wi] == id;
                                    let wc = choose|wc: int|
                                        0 <= wc < g.members.len() && g.members[wc] == conn;
                                    assert(wi == 0 && wc == 0);
                                    assert(false);
                                }
                            }
                            let a: int = if b < gi {
                                b
                            } else {
                                b - 1
                            };
                            assert(s1.groups[a] == s0.groups[b]);
                            assert(0 <= a < s1.groups.len() && s1.groups[a].code == c2
                                && s1.groups[a].members.contains(id));
                        }
                        None => {}
                    }
                }
            } else {
                let k = choose|k: int| 0 <= k < g.members.len() && g.members[k] == conn;
                assert(g.members.contains(conn));
                assert(0 <= k < g.members.len() && g.members[k] == conn);
                let rest = GroupV {
                    code: g.code,
                    members: g.members.remove(k),
                    usernames: g.usernames.remove(k),
                };
                assert(s1.groups == s0.groups.update(gi, rest));
                lemma_remove_at(g.members, k);
                g.members.remove_ensures(k);
                g.usernames.remove_ensures(k);
                assert forall|a: int|
                    0 <= a < s1.groups.len() implies (#[trigger] s1.groups[a]).code
                    == s0.groups[a].code by {}
                assert forall|a: int, b: int|
                    0 <= a < s1.groups.len() && 0 <= b < s1.groups.len() && a != b implies (
                    #[trigger] s1.groups[a].code) != (#[trigger] s1.groups[b].code) by {}
                assert forall|a: int|
                    0 <= a < s1.groups.len() implies #[trigger] group_inv(s1, a) by {
                    if a == gi {
                        assert(s1.groups[gi] == rest);
                        assert(rest.members.len() == g.members.len() - 1);
                        assert(rest.members.no_duplicates());
                        assert forall|i: int|
                            0 <= i < rest.members.len() implies #[trigger] member_inv(
                            s1,
                            gi,
                            i,
                        ) by {
                            let pi: int = if i < k {
                                i
                            } else {
                                i + 1
                            };
                            assert(rest.members[i] == g.members[pi]);
                            assert(rest.usernames[i] == g.usernames[pi]);
                            assert(member_inv(s0, gi, pi));
                            let m = rest.members[i];
                            assert(m != conn) by {
                                assert(g.members.no_duplicates());
                            }
                            assert(s1.users.contains_key(m) && s1.users[m] == s0.users[m]);
                        }
                    } else {
                        assert(s1.groups[a] == s0.groups[a]);
                        assert(group_inv(s0, a));
                        assert forall|i: int|
                            0 <= i < s1.groups[a].members.len() implies #[trigger] member_inv(
                            s1,
                            a,
                            i,
                        ) by {
                            assert(member_inv(s0, a, i));
                            let m = s1.groups[a].members[i];
                            assert(m != conn);
                            assert(s1.users.contains_key(m) && s1.users[m] == s0.users[m]);
                        }
                    }
                }
                assert forall|id: u64| #[trigger] s1.users.contains_key(id) implies (match s1.users[id].group {
                    Some(c2) => exists|b: int|
                        0 <= b < s1.groups.len() && (#[trigger] s1.groups[b]).code == c2
                            && s1.groups[b].members.contains(id),
                    None => true,
                }) by {
                    assert(id != conn && s1.users[id] == s0.users[id]);
                    assert(s0.users.contains_key(id));
                    match s0.users[id].group {
                        Some(c2) => {
                            let b = choose|b: int|
                                0 <= b < s0.groups.len() && (#[trigger] s0.groups[b]).code
                                    == c2 && s0.groups[b].members.contains(id);
                            if b == gi {
                                assert(g.members.contains(id) && id != conn);
                                assert(rest.members.contains(id));
                                assert(s1.groups[gi].code == c2);
                            } else {
                                assert(s1.groups[b] == s0.groups[b]);
                            }
                        }
                        None => {}
                    }
                }
            }
        }
    }
}

/// The disconnect cascade preserves the coordinator invariant.
pub(crate) proof fn lemma_cascade_preserves_inv(
    s0: StateV,
    s1: StateV,
    conn: u64,
    deliv: Seq<DeliveryV>,
)
    requires
        inv(s0),
        cascade_effect(s0, s1, conn, deliv),
    ensures
        inv(s1),
{
    assert(sessions_inv(s1)) by {
        assert(sessions_inv(s0));
    }
    if !s0.users.contains_key(conn) {
        lemma_cascade_inv_unknown(s0, s1);
        lemma_purged_waiting_inv(s0, s1, conn);
    } else {
        let u = s0.users[conn];
        if u.room_type == "group"@ {
            lemma_cascade_inv_group(s0, s1, conn, deliv);
            lemma_purged_waiting_inv(s0, s1, conn);
        } else {
            lemma_cascade_inv_pair(s0, s1, conn);
            lemma_purged_waiting_inv(s0, s1, conn);
        }
    }
}

impl ChatServer {
    /// A coordinator with no connections, sessions, waiters or groups.
    pub fn new() -> (r: ChatServer)
        ensures
            inv(r@),
            r@.next_id == 0,
            r@.sessions == Set::<u64>::empty(),
            r@.users == Map::<u64, UserV>::empty(),
            r@.waiting == Seq::<BucketV>::empty(),
            r@.groups == Seq::<GroupV>::empty(),
    {
        let r = ChatServer {
            next_id: 0,
            sessions: HashSet::new(),
            users: HashMap::new(),
            waiting: Vec::new(),
            groups: Vec::new(),
        };
        proof {
            assert(r@.users =~= Map::<u64, UserV>::empty());
            assert(r@.waiting =~= Seq::<BucketV>::empty());
            assert(r@.groups =~= Seq::<GroupV>::empty());
        }
        r
    }

    /// Mints a fresh connection identifier — one never handed out before —
    /// and registers the connection's delivery queue under it.
    pub fn connect(&mut self) -> (r: u64)
        requires
            inv(old(self)@),
            old(self)@.next_id < u64::MAX,
        ensures
            inv(final(self)@),
            r == old(self)@.next_id,
            !old(self)@.minted().contains(r),
            final(self)@.minted() == old(self)@.minted().insert(r),
            final(self)@.sessions == old(self)@.sessions.insert(r),
            final(self)@.users == old(self)@.users,
            final(self)@.waiting == old(self)@.waiting,
            final(self)@.groups == old(self)@.groups,
            final(self)@.next_id == old(self)@.next_id + 1,
    {
        let id = self.next_id;
        self.next_id = self.next_id + 1;
        self.sessions.insert(id);
        proof {
            assert(self@.minted() =~= old(self)@.minted().insert(id));
            assert forall|x: u64| #[trigger] self@.sessions.contains(x) implies x
                < self@.next_id by {
                if x != id {
                    assert(old(self)@.sessions.contains(x));
                }
            }
            lemma_inv_same_core(old(self)@, self@);
        }
        id
    }

    /// Whether a delivery queue is registered under `conn`.
    pub fn has_session(&self, conn: u64) -> (r: bool)
        ensures
            r == self@.sessions.contains(conn),
    {
        self.sessions.contains(&conn)
    }

    /// The partner currently bound to `conn`, if any.
    pub fn partner_of(&self, conn: u64) -> (r: Option<u64>)
        ensures
            r == (if self@.users.contains_key(conn) {
                self@.users[conn].partner
            } else {
                None::<u64>
            }),
    {
        match self.users.get(&conn) {
            Some(u) => u.partner_id,
            None => None,
        }
    }

    /// The group code currently bound to `conn`, if any.
    pub fn group_of(&self, conn: u64) -> (r: Option<String>)
        ensures
            opt_view(r) == (if self@.users.contains_key(conn) {
                self@.users[conn].group
            } else {
                None::<Seq<char>>
            }),
    {
        match self.users.get(&conn) {
            Some(u) => match &u.group_id {
                Some(c) => Some(c.clone()),
                None => None,
            },
            None => None,
        }
    }

    /// Whether `conn` sits in some waiting-pool bucket.
    pub fn is_waiting(&self, conn: u64) -> (r: bool)
        ensures
            r == self@.in_waiting(conn),
    {
        let n = self.waiting.len();
        let mut bi: usize = 0;
        while bi < n
            invariant
                0 <= bi <= n,
                n == self.waiting@.len(),
                self@.waiting.len() == self.waiting@.len(),
                forall|k: int| 0 <= k < self.waiting@.len() ==> #[trigger] self@.waiting[k]
                    == self.waiting@[k]@,
                forall|k: int| 0 <= k < bi ==> !(#[trigger] self@.waiting[k]).ids.contains(
                    conn,
                ),
            decreases n - bi,
        {
            if vec_contains_u64(&self.waiting[bi].ids, conn) {
                proof {
                    assert(self@.waiting[bi as int].ids.contains(conn));
                }
                return true;
            }
            bi += 1;
        }
        false
    }
}

impl ChatServer {
    /// Drops `conn` from every waiting-pool bucket; nothing else changes.
    pub(crate) fn purge_waiting(&mut self, conn: u64)
        ensures
            final(self)@.next_id == old(self)@.next_id,
            final(self)@.sessions == old(self)@.sessions,
            final(self)@.users == old(self)@.users,
            final(self)@.groups == old(self)@.groups,
            waiting_purged(old(self)@.waiting, final(self)@.waiting, conn),
    {
        let n = self.waiting.len();
        let mut bi: usize = 0;
        while bi < n
            invariant
                0 <= bi <= n,
                n == self.waiting@.len(),
                self.next_id == old(self).next_id,
                self.sessions == old(self).sessions,
                self.users == old(self).users,
                self.groups == old(self).groups,
                forall|k: int| bi <= k < n ==> self.waiting@[k] == old(self).waiting@[k],
                forall|k: int|
                    0 <= k < bi ==> (#[trigger] self.waiting@[k]@).preference == old(
                        self,
                    ).waiting@[k]@.preference && self.waiting@[k]@.ids == old(
                        self,
                    ).waiting@[k]@.ids.filter(ne_pred(conn)),
            decreases n - bi,
        {
            let ghost before = self.waiting@;
            let mut b = self.waiting.remove(bi);
            let ids2 = filter_out_u64(&b.ids, conn);
            b.ids = ids2;
            self.waiting.insert(bi, b);
            proof {
                assert(self.waiting@ =~= before.update(bi as int, self.waiting@[bi as int]));
            }
            bi += 1;
        }
        proof {
            assert forall|k: int|
                0 <= k < self@.waiting.len() implies (#[trigger] self@.waiting[k]).preference
                == old(self)@.waiting[k].preference && self@.waiting[k].ids == old(
                self,
            )@.waiting[k].ids.filter(ne_pred(conn)) by {
                assert(self@.waiting[k] == self.waiting@[k]@);
                assert(old(self)@.waiting[k] == old(self).waiting@[k]@);
            }
        }
    }

    /// The disconnect cascade: removes `conn`'s session state, frees its
    /// partner or its group seat, drops it from the waiting pool, and
    /// reports the notifications owed. The transport registration is left
    /// alone; `disconnect` removes that too.
    pub(crate) fn handle_disconnect(&mut self, conn: u64) -> (r: Vec<Delivery>)
        requires
            inv(old(self)@),
        ensures
            inv(final(self)@),
            cascade_effect(old(self)@, final(self)@, conn, views_of(r@)),
    {
        let ghost pre = self@;
        let mut out: Vec<Delivery> = Vec::new();
        let removed = self.users.remove(&conn);
        proof {
            assert(self@.users =~= pre.users.remove(conn));
            if !pre.users.contains_key(conn) {
                assert(self@.users =~= pre.users);
            }
        }
        match removed {
            Some(user) => {
                proof {
                    assert(pre.users.contains_key(conn));
                    assert(user@ == pre.users[conn]);
                }
                if crate::text::str_eq(user.room_type.as_str(), "group") {
                    match &user.group_id {
                        Some(code) => {
                            proof {
                                assert(pre.users[conn].group == Some(code@));
                                assert(user_group_inv(pre));
                            }
                            let gi_opt = find_group_index(&self.groups, code.as_str());
                            match gi_opt {
                                Some(gi) => {
                                    proof {
                                        assert(self@.groups == pre.groups);
                                        assert(self@.groups[gi as int]
                                            == self.groups@[gi as int]@);
                                        assert(pre.groups[gi as int].code == code@);
                                        assert(pre.has_group(code@));
                                        assert(groups_inv(pre));
                                        let gj = pre.group_index(code@);
                                        assert(0 <= gj < pre.groups.len() && pre.groups[gj].code
                                            == code@);
                                        assert(gj == gi as int);
                                    }
                                    let ghost gspec = pre.groups[gi as int];
                                    let mut g = self.groups.remove(gi);
                                    proof {
                                        assert(g@ == gspec);
                                    }
                                    let k_opt = find_u64(&g.members, conn);
                                    match k_opt {
                                        Some(k) => {
                                            proof {
                                                assert(group_inv(pre, gi as int));
                                                assert(gspec.members.no_duplicates());
                                                assert(gspec.members.contains(conn)) by {
                                                    assert(gspec.members[k as int] == conn);
                                                }
                                                let kk = choose|kk: int|
                                                    0 <= kk < gspec.members.len()
                                                        && gspec.members[kk] == conn;
                                                assert(gspec.members[kk] == conn
                                                    && gspec.members[k as int] == conn);
                                                assert(kk == k as int);
                                            }
                                            g.members.remove(k);
                                            g.usernames.remove(k);
                                            let ghost rest = GroupV {
                                                code: gspec.code,
                                                members: gspec.members.remove(k as int),
                                                usernames: gspec.usernames.remove(k as int),
                                            };
                                            proof {
                                                assert(g@.members == rest.members);
                                                assert(g@.usernames =~= rest.usernames);
                                            }
                                            if g.members.len() == 0 {
                                                proof {
                                                    assert(self@.groups =~= pre.groups.remove(
                                                        gi as int,
                                                    ));
                                                    assert(views_of(out@) =~= Seq::<
                                                        DeliveryV,
                                                    >::empty());
                                                }
                                            } else {
                                                let ghost leftv = EventV::UserLeftGroup {
                                                    username: pre.users[conn].username,
                                                };
                                                let ghost rosterv = EventV::GroupMembersUpdate {
                                                    usernames: rest.usernames,
                                                };
                                                let n = g.members.len();
                                                proof {
                                                    assert(g.members@.take(0) =~= Seq::<
                                                        u64,
                                                    >::empty());
                                                    assert(views_of(out@) =~= Seq::<
                                                        DeliveryV,
                                                    >::empty());
                                                }
                                                let mut i: usize = 0;
                                                while i < n
                                                    invariant
                                                        0 <= i <= n,
                                                        n == g.members@.len(),
                                                        g.members@ == rest.members,
                                                        g.usernames.deep_view()
                                                            == rest.usernames,
                                                        self.sessions@ == pre.sessions,
                                                        pre.users[conn].username
                                                            == user.username@,
                                                        leftv == (EventV::UserLeftGroup {
                                                            username: user.username@,
                                                        }),
                                                        rosterv == (EventV::GroupMembersUpdate {
                                                            usernames:
                                                                g.usernames.deep_view(),
                                                        }),
                                                        views_of(out@) == fan_pair(
                                                            g.members@.take(i as int),
                                                            pre.sessions,
                                                            leftv,
                                                            rosterv,
                                                        ),
                                                    decreases n - i,
                                                {
                                                    let m = g.members[i];
                                                    proof {
                                                        crate::fanout::lemma_fan_pair_step(
                                                            g.members@,
                                                            pre.sessions,
                                                            leftv,
                                                            rosterv,
                                                            i as int,
                                                        );
                                                    }
                                                    if self.sessions.contains(&m) {
                                                        let ghost out0 = out@;
                                                        let d1 = Delivery {
                                                            to: m,
                                                            event: ServerEvent::UserLeftGroup {
                                                                username:
                                                                    user.username.clone(),
                                                            },
                                                        };
                                                        proof {
                                                            crate::fanout::lemma_views_push(
                                                                out@,
                                                                d1,
                                                            );
                                                        }
                                                        out.push(d1);
                                                        let d2 = Delivery {
                                                            to: m,
                                                            event:
                                                                ServerEvent::GroupMembersUpdate {
                                                                usernames:
                                                                    crate::fanout::clone_string_vec(
                                                                    &g.usernames,
                                                                ),
                                                            },
                                                        };
                                                        proof {
                                                            crate::fanout::lemma_views_push(
                                                                out@,
                                                                d2,
                                                            );
                                                            assert(views_of(out@).push(d2@)
                                                                =~= views_of(out0) + seq![
                                                                d1@,
                                                                d2@,
                                                            ]);
                                                        }
                                                        out.push(d2);
                                                    }
                                                    i += 1;
                                                }
                                                proof {
                                                    assert(g.members@.take(n as int)
                                                        =~= g.members@);
                                                }
                                                self.groups.insert(gi, g);
                                                proof {
                                                    assert(self@.groups =~= pre.groups.update(
                                                        gi as int,
                                                        rest,
                                                    ));
                                                }
                                            }
                                        }
                                        None => {
                                            proof {
                                                let gj = choose|gj: int|
                                                    0 <= gj < pre.groups.len() && (
                                                    #[trigger] pre.groups[gj]).code == code@
                                                        && pre.groups[gj].members.contains(
                                                        conn,
                                                    );
                                                assert(groups_inv(pre));
                                                assert(gj == gi as int);
                                                assert(false);
                                            }
                                            self.groups.insert(gi, g);
                                        }
                                    }
                                }
                                None => {
                                    proof {
                                        let gj = choose|gj: int|
                                            0 <= gj < pre.groups.len() && (
                                            #[trigger] pre.groups[gj]).code == code@
                                                && pre.groups[gj].members.contains(conn);
                                        assert(pre.groups[gj] == self.groups@[gj]@);
                                        assert(false);
                                    }
                                }
                            }
                        }
                        None => {
                            proof {
                                assert(pre.users[conn].group is None);
                                assert(views_of(out@) =~= Seq::<DeliveryV>::empty());
                            }
                        }
                    }
                } else {
                    proof {
                        assert(pre.users[conn].room_type != "group"@);
                    }
                    match user.partner_id {
                        Some(p) => {
                            proof {
                                assert(partner_inv(pre));
                                assert(p != conn && pre.users.contains_key(p));
                                assert(self@.users.contains_key(p));
                            }
                            if self.has_session(p) {
                                let d = Delivery {
                                    to: p,
                                    event: ServerEvent::PartnerDisconnected,
                                };
                                proof {
                                    crate::fanout::lemma_views_push(out@, d);
                                }
                                out.push(d);
                            }
                            self.clear_partner(p);
                            proof {
                                assert(self@.users =~= pre.users.remove(conn).insert(
                                    p,
                                    unpartnered(pre.users[p]),
                                ));
                                if pre.sessions.contains(p) {
                                    assert(views_of(out@) =~= seq![
                                        DeliveryV {
                                            to: p,
                                            event: EventV::PartnerDisconnected,
                                        },
                                    ]);
                                } else {
                                    assert(views_of(out@) =~= Seq::<DeliveryV>::empty());
                                }
                            }
                        }
                        None => {
                            proof {
                                assert(views_of(out@) =~= Seq::<DeliveryV>::empty());
                            }
                        }
                    }
                }
            }
            None => {
                proof {
                    assert(!pre.users.contains_key(conn));
                    assert(views_of(out@) =~= Seq::<DeliveryV>::empty());
                }
            }
        }
        self.purge_waiting(conn);
        proof {
            assert(cascade_effect(pre, self@, conn, views_of(out@)));
            lemma_cascade_preserves_inv(pre, self@, conn, views_of(out@));
        }
        out
    }

    /// Full teardown of `conn`: deregisters its delivery queue and runs the
    /// disconnect cascade. Calling it for an unknown or already-removed
    /// connection is a harmless no-op.
    pub fn disconnect(&mut self, conn: u64) -> (r: Vec<Delivery>)
        requires
            inv(old(self)@),
        ensures
            inv(final(self)@),
            final(self)@.sessions == old(self)@.sessions.remove(conn),
            final(self)@.minted() == old(self)@.minted(),
            cascade_effect(
                old(self)@,
                StateV { sessions: old(self)@.sessions, ..final(self)@ },
                conn,
                views_of(r@),
            ),
    {
        let out = self.handle_disconnect(conn);
        let ghost mid = self@;
        self.sessions.remove(&conn);
        proof {
            assert(self@.sessions =~= mid.sessions.remove(conn));
            assert forall|x: u64| #[trigger] self@.sessions.contains(x) implies x
                < self@.next_id by {
                assert(mid.sessions.contains(x));
            }
            lemma_inv_same_core(mid, self@);
            assert(StateV { sessions: old(self)@.sessions, ..self@ } == mid);
        }
        out
    }

    /// Leaves the current chat but keeps the connection registered: the
    /// same cascade as `disconnect` without touching the session registry.
    pub fn disconnect_chat(&mut self, conn: u64) -> (r: Vec<Delivery>)
        requires
            inv(old(self)@),
        ensures
            inv(final(self)@),
            final(self)@.minted() == old(self)@.minted(),
            cascade_effect(old(self)@, final(self)@, conn, views_of(r@)),
    {
        self.handle_disconnect(conn)
    }

    /// Clears the partner binding of user `p`; nothing else changes.
    fn clear_partner(&mut self, p: u64)
        requires
            old(self)@.users.contains_key(p),
        ensures
            final(self)@.next_id == old(self)@.next_id,
            final(self)@.sessions == old(self)@.sessions,
            final(self)@.waiting == old(self)@.waiting,
            final(self)@.groups == old(self)@.groups,
            final(self)@.users == old(self)@.users.insert(p, unpartnered(old(self)@.users[p])),
    {
        match self.users.remove(&p) {
            Some(mut pu) => {
                pu.partner_id = None;
                self.users.insert(p, pu);
                proof {
                    assert(self@.users =~= old(self)@.users.insert(
                        p,
                        unpartnered(old(self)@.users[p]),
                    ));
                }
            }
            None => {
                proof {
                    assert(false);
                }
            }
        }
    }
}

/// The index of the group named `code`, if one exists.
pub(crate) fn find_group_index(groups: &Vec<Group>, code: &str) -> (r: Option<usize>)
    ensures
        match r {
            Some(gi) => gi < groups@.len() && groups@[gi as int]@.code == code@,
            None => forall|gi: int|
                0 <= gi < groups@.len() ==> (#[trigger] groups@[gi]@).code != code@,
        },
{
    let n = groups.len();
    let mut gi: usize = 0;
    while gi < n
        invariant
            0 <= gi <= n,
            n == groups@.len(),
            forall|k: int| 0 <= k < gi ==> (#[trigger] groups@[k]@).code != code@,
        decreases n - gi,
    {
        if crate::text::str_eq(groups[gi].code.as_str(), code) {
            return Some(gi);
        }
        gi += 1;
    }
    None
}

/// Whether `v` holds `x`.
pub(crate) fn vec_contains_u64(v: &Vec<u64>, x: u64) -> (r: bool)
    ensures
        r == v@.contains(x),
{
    let n = v.len();
    let mut i: usize = 0;
    while i < n
        invariant
            0 <= i <= n,
            n == v@.len(),
            forall|k: int| 0 <= k < i ==> v@[k] != x,
        decreases n - i,
    {
        if v[i] == x {
            return true;
        }
        i += 1;
    }
    false
}

/// The index of some occurrence of `x` in `v`.
pub(crate) fn find_u64(v: &Vec<u64>, x: u64) -> (r: Option<usize>)
    ensures
        match r {
            Some(k) => k < v@.len() && v@[k as int] == x,
            None => !v@.contains(x),
        },
{
    let n = v.len();
    let mut i: usize = 0;
    while i < n
        invariant
            0 <= i <= n,
            n == v@.len(),
            forall|k: int| 0 <= k < i ==> v@[k] != x,
        decreases n - i,
    {
        if v[i] == x {
            return Some(i);
        }
        i += 1;
    }
    None
}

} // verus!
