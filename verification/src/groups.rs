//! Group conversations: creation under a random six-character code,
//! joining by code, and joining a random group — the three group-join
//! algorithms a `join_chat` command can select.

use vstd::prelude::*;
use crate::envelope::Delivery;
use crate::envelope::DeliveryV;
use crate::envelope::EventV;
use crate::envelope::ServerEvent;
use crate::envelope::views_of;
use crate::fanout::clone_string_vec;
use crate::fanout::fan_join;
use crate::fanout::lemma_fan_join_step;
use crate::fanout::lemma_views_push;
use crate::server::ChatServer;
use crate::server::Group;
use crate::server::GroupV;
use crate::server::StateV;
use crate::server::UserV;
use crate::server::bucket_entry_inv;
use crate::server::find_group_index;
use crate::server::group_inv;
use crate::server::groups_inv;
use crate::server::inv;
use crate::server::member_inv;
use crate::server::sessions_inv;
use crate::server::user_group_inv;

verus! {

/// Whether `c` is one of the characters group codes are drawn from:
/// ASCII letters and digits.
pub open spec fn is_code_char(c: char) -> bool {
    ||| 97 <= c as u32 <= 122
    ||| 65 <= c as u32 <= 90
    ||| 48 <= c as u32 <= 57
}

/// A well-formed group code: six alphanumeric characters.
pub open spec fn is_group_code(code: Seq<char>) -> bool {
    &&& code.len() == 6
    &&& forall|i: int| 0 <= i < code.len() ==> is_code_char(#[trigger] code[i])
}

/// `u` bound to group `code`.
pub open spec fn with_group(u: UserV, code: Seq<char>) -> UserV {
    UserV { group: Some(code), ..u }
}

/// Joining the existing group at `s0.group_index(code)`: the joiner is
/// appended to both parallel lists and bound to the group; every member
/// with a queue gets the refreshed roster, the others besides learn who
/// joined, and the joiner finally gets `chat_started` with the code. A
/// code that names no group changes nothing and answers `group_not_found`.
pub open spec fn join_code_post(
    s0: StateV,
    s1: StateV,
    conn: u64,
    code: Seq<char>,
    deliv: Seq<DeliveryV>,
) -> bool {
    if s0.has_group(code) {
        let gi = s0.group_index(code);
        let g = s0.groups[gi];
        let g2 = GroupV {
            code: g.code,
            members: g.members.push(conn),
            usernames: g.usernames.push(s0.users[conn].username),
        };
        &&& s1.groups == s0.groups.update(gi, g2)
        &&& s1.users == s0.users.insert(conn, with_group(s0.users[conn], g.code))
        &&& s1.waiting == s0.waiting
        &&& s1.sessions == s0.sessions
        &&& s1.next_id == s0.next_id
        &&& deliv == fan_join(
            g2.members,
            conn,
            s0.sessions,
            EventV::GroupMembersUpdate { usernames: g2.usernames },
            EventV::UserJoinedGroup { username: s0.users[conn].username },
        ) + (if s0.sessions.contains(conn) {
            seq![DeliveryV { to: conn, event: EventV::ChatStarted { group_code: Some(g.code) } }]
        } else {
            Seq::<DeliveryV>::empty()
        })
    } else {
        &&& s1.groups == s0.groups
        &&& s1.users == s0.users
        &&& s1.waiting == s0.waiting
        &&& s1.sessions == s0.sessions
        &&& s1.next_id == s0.next_id
        &&& deliv == (if s0.sessions.contains(conn) {
            seq![DeliveryV { to: conn, event: EventV::GroupNotFound }]
        } else {
            Seq::<DeliveryV>::empty()
        })
    }
}

/// Creating a group under `code`: when the code is free, a new group with
/// the creator as sole member appears and the creator gets `chat_started`
/// with the code and the singleton roster. When the freshly drawn code
/// already names a group, the creator joins that group instead, which
/// keeps every session's group reference sound.
pub open spec fn create_with_code_post(
    s0: StateV,
    s1: StateV,
    conn: u64,
    code: Seq<char>,
    deliv: Seq<DeliveryV>,
) -> bool {
    if !s0.has_group(code) {
        &&& s1.groups == s0.groups.push(
            GroupV {
                code: code,
                members: seq![conn],
                usernames: seq![s0.users[conn].username],
            },
        )
        &&& s1.users == s0.users.insert(conn, with_group(s0.users[conn], code))
        &&& s1.waiting == s0.waiting
        &&& s1.sessions == s0.sessions
        &&& s1.next_id == s0.next_id
        &&& deliv == (if s0.sessions.contains(conn) {
            seq![
                DeliveryV { to: conn, event: EventV::ChatStarted { group_code: Some(code) } },
                DeliveryV {
                    to: conn,
                    event: EventV::GroupMembersUpdate {
                        usernames: seq![s0.users[conn].username],
                    },
                },
            ]
        } else {
            Seq::<DeliveryV>::empty()
        })
    } else {
        join_code_post(s0, s1, conn, code, deliv)
    }
}

/// Creating a group: some six-character alphanumeric code was drawn and
/// `create_with_code_post` holds for it.
pub open spec fn created_post(
    s0: StateV,
    s1: StateV,
    conn: u64,
    deliv: Seq<DeliveryV>,
) -> bool {
    exists|code: Seq<char>|
        is_group_code(code) && #[trigger] create_with_code_post(s0, s1, conn, code, deliv)
}

/// Joining a random group: with no group in existence this is a create;
/// otherwise some existing group was picked and joined by its code.
pub open spec fn random_post(s0: StateV, s1: StateV, conn: u64, deliv: Seq<DeliveryV>) -> bool {
    if s0.groups.len() == 0 {
        created_post(s0, s1, conn, deliv)
    } else {
        exists|gi: int|
            0 <= gi < s0.groups.len() && #[trigger] join_code_post(
                s0,
                s1,
                conn,
                s0.groups[gi].code,
                deliv,
            )
    }
}

/// One uniformly drawn code character, as its ASCII byte.
fn code_byte(i: usize) -> (r: u8)
    requires
        i < 62,
    ensures
        r < 128,
        is_code_char(r as char),
{
    if i < 26 {
        (97 + i) as u8
    } else if i < 52 {
        (65 + (i - 26)) as u8
    } else {
        (48 + (i - 52)) as u8
    }
}

/// A random six-character alphanumeric group code, drawn uniformly
/// character by character. No check against existing codes happens here;
/// the create path resolves a collision by joining the existing group.
pub fn generate_group_code() -> (r: String)
    ensures
        is_group_code(r@),
{
    let mut bytes: Vec<u8> = Vec::new();
    let mut i: usize = 0;
    while i < 6
        invariant
            0 <= i <= 6,
            bytes@.len() == i,
            forall|k: int|
                0 <= k < i ==> bytes@[k] < 128 && is_code_char((#[trigger] bytes@[k]) as char),
        decreases 6 - i,
    {
        let d = crate::rng::pick_index(62);
        let b = code_byte(d);
        bytes.push(b);
        i += 1;
    }
    let ghost bs = bytes@;
    let s = crate::text::ascii_to_string(bytes);
    proof {
        assert forall|k: int| 0 <= k < s@.len() implies is_code_char(s@[k]) by {
            assert(s@[k] == bs[k] as char);
            assert(is_code_char(bs[k] as char));
        }
    }
    s
}

/// Adding a fresh member to the group at `gi` — appended to both parallel
/// lists, with its session bound to the group's code — preserves the
/// coordinator invariant.
pub(crate) proof fn lemma_join_group_inv(s0: StateV, s1: StateV, conn: u64, gi: int)
    requires
        inv(s0),
        s0.users.contains_key(conn),
        s0.users[conn].room_type == "group"@,
        s0.users[conn].group is None,
        s0.users[conn].partner is None,
        0 <= gi < s0.groups.len(),
        s1.users == s0.users.insert(conn, with_group(s0.users[conn], s0.groups[gi].code)),
        s1.groups == s0.groups.update(
            gi,
            GroupV {
                code: s0.groups[gi].code,
                members: s0.groups[gi].members.push(conn),
                usernames: s0.groups[gi].usernames.push(s0.users[conn].username),
            },
        ),
        s1.waiting == s0.waiting,
        s1.sessions == s0.sessions,
        s1.next_id == s0.next_id,
    ensures
        inv(s1),
{
    let g = s0.groups[gi];
    assert(sessions_inv(s1)) by {
        assert(sessions_inv(s0));
    }
    // the joiner sits in no group's member list yet
    assert forall|a: int, i: int|
        0 <= a < s0.groups.len() && 0 <= i
            < s0.groups[a].members.len() implies s0.groups[a].members[i] != conn by {
        assert(group_inv(s0, a));
        assert(member_inv(s0, a, i));
        if s0.groups[a].members[i] == conn {
            assert(s0.users[conn].group == Some(s0.groups[a].code));
        }
    }
    // waiting pool: no entry is the joiner, whose room type is `group`
    assert forall|bi: int, i: int|
        0 <= bi < s1.waiting.len() && 0 <= i
            < s1.waiting[bi].ids.len() implies #[trigger] bucket_entry_inv(s1, bi, i) by {
        assert(bucket_entry_inv(s0, bi, i));
        let x = s0.waiting[bi].ids[i];
        assert(x != conn);
        assert(s1.users[x] == s0.users[x]);
    }
    assert forall|id: u64| #[trigger] s1.users.contains_key(id) implies (match s1.users[id].partner {
        Some(q) => q != id && s1.users.contains_key(q) && s1.users[q].partner == Some(id),
        None => true,
    }) by {
        if id != conn {
            assert(s1.users[id] == s0.users[id]);
            assert(s0.users.contains_key(id));
            match s0.users[id].partner {
                Some(q) => {
                    assert(q != id && s0.users.contains_key(q) && s0.users[q].partner == Some(
                        id,
                    ));
                    if q == conn {
                        assert(s0.users[conn].partner == Some(id));
                        assert(false);
                    }
                    assert(s1.users[q] == s0.users[q]);
                }
                None => {}
            }
        }
    }
    assert forall|id: u64| #[trigger] s1.users.contains_key(id) implies {
        &&& (s1.users[id].room_type == "group"@ ==> s1.users[id].partner is None)
        &&& (s1.users[id].room_type != "group"@ ==> s1.users[id].group is None)
    } by {
        if id != conn {
            assert(s1.users[id] == s0.users[id]);
            assert(s0.users.contains_key(id));
        }
    }
    assert forall|a: int, b: int|
        0 <= a < s1.groups.len() && 0 <= b < s1.groups.len() && a != b implies (
        #[trigger] s1.groups[a].code) != (#[trigger] s1.groups[b].code) by {
        assert(s1.groups[a].code == s0.groups[a].code);
        assert(s1.groups[b].code == s0.groups[b].code);
    }
    assert forall|a: int| 0 <= a < s1.groups.len() implies #[trigger] group_inv(s1, a) by {
        assert(group_inv(s0, a));
        if a == gi {
            let g2 = s1.groups[gi];
            assert(g2.members == g.members.push(conn));
            assert(g2.usernames == g.usernames.push(s0.users[conn].username));
            assert(!g.members.contains(conn)) by {
                if g.members.contains(conn) {
                    let w = choose|w: int| 0 <= w < g.members.len() && g.members[w] == conn;
                    assert(g.members[w] == conn);
                }
            }
            assert(g2.members.no_duplicates()) by {
                assert forall|i: int, j: int|
                    0 <= i < g2.members.len() && 0 <= j < g2.members.len() && i
                        != j implies g2.members[i] != g2.members[j] by {
                    if i < g.members.len() && j < g.members.len() {
                    } else if i < g.members.len() {
                        assert(g2.members[j] == conn);
                        assert(g.members[i] != conn);
                    } else {
                        assert(g2.members[i] == conn);
                        assert(g.members[j] != conn);
                    }
                }
            }
            assert forall|i: int|
                0 <= i < g2.members.len() implies #[trigger] member_inv(s1, gi, i) by {
                if i < g.members.len() {
                    assert(member_inv(s0, gi, i));
                    let m = g.members[i];
                    assert(m != conn);
                    assert(s1.users[m] == s0.users[m]);
                    assert(g2.members[i] == m && g2.usernames[i] == g.usernames[i]);
                } else {
                    assert(g2.members[i] == conn);
                    assert(g2.usernames[i] == s0.users[conn].username);
                }
            }
        } else {
            assert(s1.groups[a] == s0.groups[a]);
            assert forall|i: int|
                0 <= i < s1.groups[a].members.len() implies #[trigger] member_inv(s1, a, i) by {
                assert(member_inv(s0, a, i));
                let m = s1.groups[a].members[i];
                assert(m != conn);
                assert(s1.users[m] == s0.users[m]);
            }
        }
    }
    assert forall|id: u64| #[trigger] s1.users.contains_key(id) implies (match s1.users[id].group {
        Some(c2) => exists|b: int|
            0 <= b < s1.groups.len() && (#[trigger] s1.groups[b]).code == c2
                && s1.groups[b].members.contains(id),
        None => true,
    }) by {
        assert(user_group_inv(s0));
        if id == conn {
            assert(s1.users[conn].group == Some(g.code));
            assert(s1.groups[gi].code == g.code);
            assert(s1.groups[gi].members[g.members.len() as int] == conn);
            assert(s1.groups[gi].members.contains(conn));
        } else {
            assert(s1.users[id] == s0.users[id]);
            assert(s0.users.contains_key(id));
            match s0.users[id].group {
                Some(c2) => {
                    let b = choose|b: int|
                        0 <= b < s0.groups.len() && (#[trigger] s0.groups[b]).code == c2
                            && s0.groups[b].members.contains(id);
                    if b == gi {
                        assert(s1.groups[gi].code == c2);
                        let w = choose|w: int|
                            0 <= w < g.members.len() && g.members[w] == id;
                        assert(s1.groups[gi].members[w] == id);
                        assert(s1.groups[gi].members.contains(id));
                    } else {
                        assert(s1.groups[b] == s0.groups[b]);
                    }
                }
                None => {}
            }
        }
    }
}

/// Creating a singleton group under a free code preserves the coordinator
/// invariant.
pub(crate) proof fn lemma_create_inv(s0: StateV, s1: StateV, conn: u64, code: Seq<char>)
    requires
        inv(s0),
        s0.users.contains_key(conn),
        s0.users[conn].room_type == "group"@,
        s0.users[conn].group is None,
        s0.users[conn].partner is None,
        !s0.has_group(code),
        s1.users == s0.users.insert(conn, with_group(s0.users[conn], code)),
        s1.groups == s0.groups.push(
            GroupV { code: code, members: seq![conn], usernames: seq![s0.users[conn].username] },
        ),
        s1.waiting == s0.waiting,
        s1.sessions == s0.sessions,
        s1.next_id == s0.next_id,
    ensures
        inv(s1),
{
    let n = s0.groups.len() as int;
    assert(sessions_inv(s1)) by {
        assert(sessions_inv(s0));
    }
    assert forall|a: int, i: int|
        0 <= a < s0.groups.len() && 0 <= i
            < s0.groups[a].members.len() implies s0.groups[a].members[i] != conn by {
        assert(group_inv(s0, a));
        assert(member_inv(s0, a, i));
        if s0.groups[a].members[i] == conn {
            assert(s0.users[conn].group == Some(s0.groups[a].code));
        }
    }
    assert forall|bi: int, i: int|
        0 <= bi < s1.waiting.len() && 0 <= i
            < s1.waiting[bi].ids.len() implies #[trigger] bucket_entry_inv(s1, bi, i) by {
        assert(bucket_entry_inv(s0, bi, i));
        let x = s0.waiting[bi].ids[i];
        assert(x != conn);
        assert(s1.users[x] == s0.users[x]);
    }
    assert forall|id: u64| #[trigger] s1.users.contains_key(id) implies (match s1.users[id].partner {
        Some(q) => q != id && s1.users.contains_key(q) && s1.users[q].partner == Some(id),
        None => true,
    }) by {
        if id != conn {
            assert(s1.users[id] == s0.users[id]);
            assert(s0.users.contains_key(id));
            match s0.users[id].partner {
                Some(q) => {
                    assert(q != id && s0.users.contains_key(q) && s0.users[q].partner == Some(
                        id,
                    ));
                    if q == conn {
                        assert(s0.users[conn].partner == Some(id));
                        assert(false);
                    }
                    assert(s1.users[q] == s0.users[q]);
                }
                None => {}
            }
        }
    }
    assert forall|id: u64| #[trigger] s1.users.contains_key(id) implies {
        &&& (s1.users[id].room_type == "group"@ ==> s1.users[id].partner is None)
        &&& (s1.users[id].room_type != "group"@ ==> s1.users[id].group is None)
    } by {
        if id != conn {
            assert(s1.users[id] == s0.users[id]);
            assert(s0.users.contains_key(id));
        }
    }
    assert forall|a: int, b: int|
        0 <= a < s1.groups.len() && 0 <= b < s1.groups.len() && a != b implies (
        #[trigger] s1.groups[a].code) != (#[trigger] s1.groups[b].code) by {
        if a < n && b < n {
            assert(s1.groups[a] == s0.groups[a]);
            assert(s1.groups[b] == s0.groups[b]);
        } else if a < n {
            assert(s1.groups[b].code == code);
            assert(s1.groups[a] == s0.groups[a]);
            if s0.groups[a].code == code {
                assert(s0.has_group(code));
            }
        } else {
            assert(s1.groups[a].code == code);
            assert(s1.groups[b] == s0.groups[b]);
            if s0.groups[b].code == code {
                assert(s0.has_group(code));
            }
        }
    }
    assert forall|a: int| 0 <= a < s1.groups.len() implies #[trigger] group_inv(s1, a) by {
        if a < n {
            assert(s1.groups[a] == s0.groups[a]);
            assert(group_inv(s0, a));
            assert forall|i: int|
                0 <= i < s1.groups[a].members.len() implies #[trigger] member_inv(s1, a, i) by {
                assert(member_inv(s0, a, i));
                let m = s1.groups[a].members[i];
                assert(m != conn);
                assert(s1.users[m] == s0.users[m]);
            }
        } else {
            let g2 = s1.groups[n];
            assert(g2.members == seq![conn] && g2.usernames == seq![s0.users[conn].username]);
            assert forall|i: int|
                0 <= i < s1.groups[a].members.len() implies #[trigger] member_inv(s1, a, i) by {
                assert(i == 0);
                assert(g2.members[0] == conn);
                assert(s1.users[conn] == with_group(s0.users[conn], code));
            }
        }
    }
    assert forall|id: u64| #[trigger] s1.users.contains_key(id) implies (match s1.users[id].group {
        Some(c2) => exists|b: int|
            0 <= b < s1.groups.len() && (#[trigger] s1.groups[b]).code == c2
                && s1.groups[b].members.contains(id),
        None => true,
    }) by {
        assert(user_group_inv(s0));
        if id == conn {
            assert(s1.users[conn].group == Some(code));
            assert(s1.groups[n].code == code);
            assert(s1.groups[n].members[0] == conn);
            assert(s1.groups[n].members.contains(conn));
        } else {
            assert(s1.users[id] == s0.users[id]);
            assert(s0.users.contains_key(id));
            match s0.users[id].group {
                Some(c2) => {
                    let b = choose|b: int|
                        0 <= b < s0.groups.len() && (#[trigger] s0.groups[b]).code == c2
                            && s0.groups[b].members.contains(id);
                    assert(s1.groups[b] == s0.groups[b]);
                }
                None => {}
            }
        }
    }
}

impl ChatServer {
    /// Binds user `conn` to group `code`; nothing else changes.
    fn bind_group(&mut self, conn: u64, code: String)
        requires
            old(self)@.users.contains_key(conn),
        ensures
            final(self)@.next_id == old(self)@.next_id,
            final(self)@.sessions == old(self)@.sessions,
            final(self)@.waiting == old(self)@.waiting,
            final(self)@.groups == old(self)@.groups,
            final(self)@.users == old(self)@.users.insert(
                conn,
                with_group(old(self)@.users[conn], code@),
            ),
    {
        match self.users.remove(&conn) {
            Some(mut u) => {
                u.group_id = Some(code);
                self.users.insert(conn, u);
                proof {
                    assert(self@.users =~= old(self)@.users.insert(
                        conn,
                        with_group(old(self)@.users[conn], code@),
                    ));
                }
            }
            None => {
                proof {
                    assert(false);
                }
            }
        }
    }

    /// The display name of user `conn`.
    fn username_of(&self, conn: u64) -> (r: String)
        requires
            self@.users.contains_key(conn),
        ensures
            r@ == self@.users[conn].username,
    {
        match self.users.get(&conn) {
            Some(u) => u.username.clone(),
            None => {
                proof {
                    assert(false);
                }
                String::new()
            }
        }
    }

    /// Joins `conn` to the group named `code`: appends it to the member and
    /// username lists, binds its session, refreshes every member's roster,
    /// tells the others who joined and confirms the joiner. An unknown code
    /// answers `group_not_found` and changes nothing.
    pub(crate) fn join_group_by_code(&mut self, conn: u64, code: &str) -> (r: Vec<Delivery>)
        requires
            inv(old(self)@),
            old(self)@.users.contains_key(conn),
            old(self)@.users[conn].room_type == "group"@,
            old(self)@.users[conn].group is None,
            old(self)@.users[conn].partner is None,
        ensures
            inv(final(self)@),
            join_code_post(old(self)@, final(self)@, conn, code@, views_of(r@)),
    {
        let ghost pre = self@;
        let mut out: Vec<Delivery> = Vec::new();
        let gi_opt = find_group_index(&self.groups, code);
        match gi_opt {
            None => {
                proof {
                    if pre.has_group(code@) {
                        let gj = pre.group_index(code@);
                        assert(pre.groups[gj] == self.groups@[gj]@);
                        assert(false);
                    }
                }
                if self.has_session(conn) {
                    let d = Delivery { to: conn, event: ServerEvent::GroupNotFound };
                    proof {
                        lemma_views_push(out@, d);
                    }
                    out.push(d);
                }
                proof {
                    if pre.sessions.contains(conn) {
                        assert(views_of(out@) =~= seq![
                            DeliveryV { to: conn, event: EventV::GroupNotFound },
                        ]);
                    } else {
                        assert(views_of(out@) =~= Seq::<DeliveryV>::empty());
                    }
                }
                out
            }
            Some(gi) => {
                proof {
                    assert(self@.groups[gi as int] == self.groups@[gi as int]@);
                    assert(pre.groups[gi as int].code == code@);
                    assert(pre.has_group(code@));
                    assert(groups_inv(pre));
                    let gj = pre.group_index(code@);
                    assert(0 <= gj < pre.groups.len() && pre.groups[gj].code == code@);
                    assert(gj == gi as int);
                }
                let ghost g0 = pre.groups[gi as int];
                let uname = self.username_of(conn);
                let mut g = self.groups.remove(gi);
                proof {
                    assert(g@ == g0);
                }
                g.members.push(conn);
                g.usernames.push(uname.clone());
                let ghost g2 = GroupV {
                    code: g0.code,
                    members: g0.members.push(conn),
                    usernames: g0.usernames.push(pre.users[conn].username),
                };
                proof {
                    assert(g@.members == g2.members);
                    assert(g@.usernames =~= g2.usernames);
                }
                self.bind_group(conn, g.code.clone());
                proof {
                    assert(self@.users == pre.users.insert(
                        conn,
                        with_group(pre.users[conn], g0.code),
                    ));
                    assert(self@.groups =~= pre.groups.remove(gi as int));
                }
                let ghost mid = self@;
                let ghost rosterv = EventV::GroupMembersUpdate { usernames: g2.usernames };
                let ghost joinedv = EventV::UserJoinedGroup {
                    username: pre.users[conn].username,
                };
                let n = g.members.len();
                proof {
                    assert(g.members@.take(0) =~= Seq::<u64>::empty());
                    assert(views_of(out@) =~= Seq::<DeliveryV>::empty());
                }
                let mut i: usize = 0;
                while i < n
                    invariant
                        0 <= i <= n,
                        n == g.members@.len(),
                        g.members@ == g2.members,
                        g.usernames.deep_view() == g2.usernames,
                        g.code@ == g2.code,
                        self@ == mid,
                        gi as int <= self.groups@.len(),
                        self.sessions@ == pre.sessions,
                        uname@ == pre.users[conn].username,
                        rosterv == (EventV::GroupMembersUpdate {
                            usernames: g.usernames.deep_view(),
                        }),
                        joinedv == (EventV::UserJoinedGroup { username: uname@ }),
                        views_of(out@) == fan_join(
                            g.members@.take(i as int),
                            conn,
                            pre.sessions,
                            rosterv,
                            joinedv,
                        ),
                    decreases n - i,
                {
                    let m = g.members[i];
                    proof {
                        lemma_fan_join_step(
                            g.members@,
                            conn,
                            pre.sessions,
                            rosterv,
                            joinedv,
                            i as int,
                        );
                    }
                    if self.sessions.contains(&m) {
                        let ghost out0 = out@;
                        let d1 = Delivery {
                            to: m,
                            event: ServerEvent::GroupMembersUpdate {
                                usernames: clone_string_vec(&g.usernames),
                            },
                        };
                        proof {
                            lemma_views_push(out@, d1);
                        }
                        out.push(d1);
                        if m != conn {
                            let d2 = Delivery {
                                to: m,
                                event: ServerEvent::UserJoinedGroup {
                                    username: uname.clone(),
                                },
                            };
                            proof {
                                lemma_views_push(out@, d2);
                                assert(views_of(out@).push(d2@) =~= views_of(out0) + seq![
                                    d1@,
                                    d2@,
                                ]);
                            }
                            out.push(d2);
                        }
                    }
                    i += 1;
                }
                proof {
                    assert(g.members@.take(n as int) =~= g.members@);
                }
                let ghost broadcastd = views_of(out@);
                if self.has_session(conn) {
                    let d = Delivery {
                        to: conn,
                        event: ServerEvent::ChatStarted { group_code: Some(g.code.clone()) },
                    };
                    proof {
                        lemma_views_push(out@, d);
                    }
                    out.push(d);
                }
                self.groups.insert(gi, g);
                proof {
                    assert(self@.groups.len() == mid.groups.len() + 1);
                    assert forall|a: int|
                        0 <= a < self@.groups.len() implies self@.groups[a]
                        == pre.groups.update(gi as int, g2)[a] by {
                        if a < gi as int {
                            assert(self@.groups[a] == mid.groups[a]);
                            assert(mid.groups[a] == pre.groups.remove(gi as int)[a]);
                            assert(pre.groups.remove(gi as int)[a] == pre.groups[a]);
                        } else if a == gi as int {
                            assert(self@.groups[a] == g@);
                            assert(g@ == g2);
                        } else {
                            assert(self@.groups[a] == mid.groups[a - 1]);
                            assert(mid.groups[a - 1] == pre.groups.remove(gi as int)[a - 1]);
                            assert(pre.groups.remove(gi as int)[a - 1] == pre.groups[a]);
                        }
                    }
                    assert(self@.groups =~= pre.groups.update(gi as int, g2));
                    if pre.sessions.contains(conn) {
                        assert(views_of(out@) =~= broadcastd + seq![
                            DeliveryV {
                                to: conn,
                                event: EventV::ChatStarted { group_code: Some(g0.code) },
                            },
                        ]);
                    } else {
                        assert(views_of(out@) =~= broadcastd + Seq::<DeliveryV>::empty());
                    }
                    assert(join_code_post(pre, self@, conn, code@, views_of(out@)));
                    lemma_join_group_inv(pre, self@, conn, gi as int);
                }
                out
            }
        }
    }

    /// Creates a group for `conn` under a freshly drawn code and confirms
    /// the creator with the code and the singleton roster. In the rare case
    /// the drawn code already names a group, the creator joins that group.
    pub(crate) fn create_new_group(&mut self, conn: u64) -> (r: Vec<Delivery>)
        requires
            inv(old(self)@),
            old(self)@.users.contains_key(conn),
            old(self)@.users[conn].room_type == "group"@,
            old(self)@.users[conn].group is None,
            old(self)@.users[conn].partner is None,
        ensures
            inv(final(self)@),
            created_post(old(self)@, final(self)@, conn, views_of(r@)),
    {
        let ghost pre = self@;
        let code = generate_group_code();
        let gi_opt = find_group_index(&self.groups, code.as_str());
        match gi_opt {
            Some(gi) => {
                proof {
                    assert(self@.groups[gi as int] == self.groups@[gi as int]@);
                    assert(pre.groups[gi as int].code == code@);
                    assert(pre.has_group(code@));
                }
                let out = self.join_group_by_code(conn, code.as_str());
                proof {
                    assert(create_with_code_post(pre, self@, conn, code@, views_of(out@)));
                    assert(created_post(pre, self@, conn, views_of(out@)));
                }
                out
            }
            None => {
                proof {
                    if pre.has_group(code@) {
                        let gj = pre.group_index(code@);
                        assert(pre.groups[gj] == self.groups@[gj]@);
                        assert(false);
                    }
                }
                let uname = self.username_of(conn);
                let mut members: Vec<u64> = Vec::new();
                members.push(conn);
                let mut names: Vec<String> = Vec::new();
                names.push(uname.clone());
                let g = Group { code: code.clone(), members, usernames: names };
                let ghost gv = GroupV {
                    code: code@,
                    members: seq![conn],
                    usernames: seq![pre.users[conn].username],
                };
                proof {
                    assert(g@.members =~= gv.members);
                    assert(g@.usernames =~= gv.usernames);
                    assert(g@ == gv);
                }
                self.groups.push(g);
                self.bind_group(conn, code.clone());
                let mut out: Vec<Delivery> = Vec::new();
                if self.has_session(conn) {
                    let d1 = Delivery {
                        to: conn,
                        event: ServerEvent::ChatStarted { group_code: Some(code.clone()) },
                    };
                    proof {
                        lemma_views_push(out@, d1);
                    }
                    out.push(d1);
                    let mut roster: Vec<String> = Vec::new();
                    roster.push(uname.clone());
                    let d2 = Delivery {
                        to: conn,
                        event: ServerEvent::GroupMembersUpdate { usernames: roster },
                    };
                    proof {
                        lemma_views_push(out@, d2);
                        assert(d2@.event == (EventV::GroupMembersUpdate {
                            usernames: seq![pre.users[conn].username],
                        })) by {
                            assert(d2.event@ matches EventV::GroupMembersUpdate { usernames }
                                && usernames =~= seq![pre.users[conn].username]);
                        }
                    }
                    out.push(d2);
                }
                proof {
                    assert(self@.groups =~= pre.groups.push(gv));
                    assert(self@.users == pre.users.insert(
                        conn,
                        with_group(pre.users[conn], code@),
                    ));
                    if pre.sessions.contains(conn) {
                        assert(views_of(out@) =~= seq![
                            DeliveryV {
                                to: conn,
                                event: EventV::ChatStarted { group_code: Some(code@) },
                            },
                            DeliveryV {
                                to: conn,
                                event: EventV::GroupMembersUpdate {
                                    usernames: seq![pre.users[conn].username],
                                },
                            },
                        ]);
                    } else {
                        assert(views_of(out@) =~= Seq::<DeliveryV>::empty());
                    }
                    assert(create_with_code_post(pre, self@, conn, code@, views_of(out@)));
                    lemma_create_inv(pre, self@, conn, code@);
                    assert(created_post(pre, self@, conn, views_of(out@)));
                }
                out
            }
        }
    }

    /// Joins `conn` to a uniformly chosen existing group, or creates a new
    /// one when no group exists.
    pub(crate) fn join_random_group(&mut self, conn: u64) -> (r: Vec<Delivery>)
        requires
            inv(old(self)@),
            old(self)@.users.contains_key(conn),
            old(self)@.users[conn].room_type == "group"@,
            old(self)@.users[conn].group is None,
            old(self)@.users[conn].partner is None,
        ensures
            inv(final(self)@),
            random_post(old(self)@, final(self)@, conn, views_of(r@)),
    {
        let n = self.groups.len();
        if n == 0 {
            self.create_new_group(conn)
        } else {
            let ghost pre = self@;
            let gi = crate::rng::pick_index(n);
            let code = self.groups[gi].code.clone();
            proof {
                assert(self@.groups[gi as int] == self.groups@[gi as int]@);
                assert(code@ == pre.groups[gi as int].code);
            }
            let out = self.join_group_by_code(conn, code.as_str());
            proof {
                assert(join_code_post(pre, self@, conn, pre.groups[gi as int].code, views_of(
                    out@,
                )));
            }
            out
        }
    }
}

} // verus!
