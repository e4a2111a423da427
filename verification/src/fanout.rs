//! Fan-out: who receives which outbound event. The spec functions here
//! define the exact delivery sequences the coordinator owes for a
//! broadcast, walking a member list in order and skipping connections with
//! no registered queue.

use vstd::prelude::*;
use crate::envelope::Delivery;
use crate::envelope::DeliveryV;
use crate::envelope::EncryptedMessage;
use crate::envelope::EventV;
use crate::envelope::MessageV;
use crate::envelope::ServerEvent;
use crate::envelope::views_of;
use crate::server::ChatServer;
use crate::server::StateV;
use crate::server::find_group_index;
use crate::server::groups_inv;
use crate::server::inv;
use crate::text::conn_id_of_str;
use crate::text::opt_view;
use crate::text::parse_conn_id;

verus! {

/// One event to every listed member that has a session, except `skip`,
/// in member order.
pub open spec fn fan_single(
    members: Seq<u64>,
    skip: Option<u64>,
    sessions: Set<u64>,
    ev: EventV,
) -> Seq<DeliveryV>
    decreases members.len(),
{
    if members.len() == 0 {
        Seq::empty()
    } else {
        let m = members.last();
        let rest = fan_single(members.drop_last(), skip, sessions, ev);
        if skip != Some(m) && sessions.contains(m) {
            rest.push(DeliveryV { to: m, event: ev })
        } else {
            rest
        }
    }
}

/// Two events, in order, to every listed member that has a session.
pub open spec fn fan_pair(
    members: Seq<u64>,
    sessions: Set<u64>,
    first: EventV,
    second: EventV,
) -> Seq<DeliveryV>
    decreases members.len(),
{
    if members.len() == 0 {
        Seq::empty()
    } else {
        let m = members.last();
        let rest = fan_pair(members.drop_last(), sessions, first, second);
        if sessions.contains(m) {
            rest + seq![
                DeliveryV { to: m, event: first },
                DeliveryV { to: m, event: second },
            ]
        } else {
            rest
        }
    }
}

/// The roster event to every listed member that has a session, and the
/// joined event besides to every such member but the joiner.
pub open spec fn fan_join(
    members: Seq<u64>,
    joiner: u64,
    sessions: Set<u64>,
    roster: EventV,
    joined: EventV,
) -> Seq<DeliveryV>
    decreases members.len(),
{
    if members.len() == 0 {
        Seq::empty()
    } else {
        let m = members.last();
        let rest = fan_join(members.drop_last(), joiner, sessions, roster, joined);
        if sessions.contains(m) {
            if m == joiner {
                rest.push(DeliveryV { to: m, event: roster })
            } else {
                rest + seq![
                    DeliveryV { to: m, event: roster },
                    DeliveryV { to: m, event: joined },
                ]
            }
        } else {
            rest
        }
    }
}

pub(crate) proof fn lemma_fan_single_step(
    members: Seq<u64>,
    skip: Option<u64>,
    sessions: Set<u64>,
    ev: EventV,
    i: int,
)
    requires
        0 <= i < members.len(),
    ensures
        fan_single(members.take(i + 1), skip, sessions, ev) == if skip != Some(members[i])
            && sessions.contains(members[i]) {
            fan_single(members.take(i), skip, sessions, ev).push(
                DeliveryV { to: members[i], event: ev },
            )
        } else {
            fan_single(members.take(i), skip, sessions, ev)
        },
{
    assert(members.take(i + 1).drop_last() =~= members.take(i));
    assert(members.take(i + 1).last() == members[i]);
}

pub(crate) proof fn lemma_fan_pair_step(
    members: Seq<u64>,
    sessions: Set<u64>,
    first: EventV,
    second: EventV,
    i: int,
)
    requires
        0 <= i < members.len(),
    ensures
        fan_pair(members.take(i + 1), sessions, first, second) == if sessions.contains(
            members[i],
        ) {
            fan_pair(members.take(i), sessions, first, second) + seq![
                DeliveryV { to: members[i], event: first },
                DeliveryV { to: members[i], event: second },
            ]
        } else {
            fan_pair(members.take(i), sessions, first, second)
        },
{
    assert(members.take(i + 1).drop_last() =~= members.take(i));
    assert(members.take(i + 1).last() == members[i]);
}

pub(crate) proof fn lemma_fan_join_step(
    members: Seq<u64>,
    joiner: u64,
    sessions: Set<u64>,
    roster: EventV,
    joined: EventV,
    i: int,
)
    requires
        0 <= i < members.len(),
    ensures
        fan_join(members.take(i + 1), joiner, sessions, roster, joined) == if sessions.contains(
            members[i],
        ) {
            if members[i] == joiner {
                fan_join(members.take(i), joiner, sessions, roster, joined).push(
                    DeliveryV { to: members[i], event: roster },
                )
            } else {
                fan_join(members.take(i), joiner, sessions, roster, joined) + seq![
                    DeliveryV { to: members[i], event: roster },
                    DeliveryV { to: members[i], event: joined },
                ]
            }
        } else {
            fan_join(members.take(i), joiner, sessions, roster, joined)
        },
{
    assert(members.take(i + 1).drop_last() =~= members.take(i));
    assert(members.take(i + 1).last() == members[i]);
}

pub(crate) proof fn lemma_views_push(s: Seq<Delivery>, d: Delivery)
    ensures
        views_of(s.push(d)) == views_of(s).push(d@),
{
    assert(views_of(s.push(d)) =~= views_of(s).push(d@));
}

/// The group a scoped send resolves: the explicitly supplied code when
/// present, else the sender's remembered group.
pub open spec fn resolved_group_code(
    s: StateV,
    sender: u64,
    code: Option<Seq<char>>,
) -> Option<Seq<char>> {
    match code {
        Some(c) => Some(c),
        None => s.users[sender].group,
    }
}

/// The deliveries a scoped send owes. Group scope: the resolved group's
/// members, minus the sender when `exclude_sender`, each receiving
/// `group_ev`; an unresolved group delivers nothing. Pairwise scope: the
/// bound partner receives `pair_ev`, and so does the sender itself when
/// `echo_sender`; an absent partner delivers nothing. An unknown sender
/// never delivers. Only connections with a registered queue receive.
pub open spec fn scoped_deliveries(
    s: StateV,
    sender: u64,
    is_group: bool,
    code: Option<Seq<char>>,
    group_ev: EventV,
    pair_ev: EventV,
    exclude_sender: bool,
    echo_sender: bool,
) -> Seq<DeliveryV> {
    if !s.users.contains_key(sender) {
        Seq::<DeliveryV>::empty()
    } else if is_group {
        match resolved_group_code(s, sender, code) {
            Some(c) => if s.has_group(c) {
                fan_single(
                    s.groups[s.group_index(c)].members,
                    if exclude_sender {
                        Some(sender)
                    } else {
                        None
                    },
                    s.sessions,
                    group_ev,
                )
            } else {
                Seq::<DeliveryV>::empty()
            },
            None => Seq::<DeliveryV>::empty(),
        }
    } else {
        (match s.users[sender].partner {
            Some(p) => if s.sessions.contains(p) {
                seq![DeliveryV { to: p, event: pair_ev }]
            } else {
                Seq::<DeliveryV>::empty()
            },
            None => Seq::<DeliveryV>::empty(),
        }) + (if echo_sender && s.sessions.contains(sender) {
            seq![DeliveryV { to: sender, event: pair_ev }]
        } else {
            Seq::<DeliveryV>::empty()
        })
    }
}

/// The `receive_message` event a sender's audience receives.
pub open spec fn receive_message_event(s: StateV, sender: u64, m: MessageV) -> EventV {
    EventV::ReceiveMessage {
        message: m,
        sender: s.users[sender].username,
        reply_to: m.reply_to,
    }
}

/// The deliveries a call-negotiation relay owes: nothing for an unknown
/// sender; in group scope the mandatory code's members minus the sender;
/// in pairwise scope exactly the connection the caller-supplied target
/// identifier denotes, whatever the sender's own partner binding says.
pub open spec fn relay_deliveries(
    s: StateV,
    sender: u64,
    event_type: Seq<char>,
    target: Seq<char>,
    payload: Seq<char>,
    is_group: bool,
    code: Option<Seq<char>>,
) -> Seq<DeliveryV> {
    let ev = EventV::WebRtc { event_type: event_type, payload: payload };
    if !s.users.contains_key(sender) {
        Seq::<DeliveryV>::empty()
    } else if is_group {
        match code {
            Some(c) => if s.has_group(c) {
                fan_single(s.groups[s.group_index(c)].members, Some(sender), s.sessions, ev)
            } else {
                Seq::<DeliveryV>::empty()
            },
            None => Seq::<DeliveryV>::empty(),
        }
    } else {
        match conn_id_of_str(target) {
            Some(t) => if s.sessions.contains(t) {
                seq![DeliveryV { to: t, event: ev }]
            } else {
                Seq::<DeliveryV>::empty()
            },
            None => Seq::<DeliveryV>::empty(),
        }
    }
}

impl ServerEvent {
    /// A copy whose view is this event's view.
    pub fn duplicate(&self) -> (r: ServerEvent)
        ensures
            r@ == self@,
    {
        match self {
            ServerEvent::WaitingForMatch => ServerEvent::WaitingForMatch,
            ServerEvent::ChatStarted { group_code } => ServerEvent::ChatStarted {
                group_code: match group_code {
                    Some(c) => Some(c.clone()),
                    None => None,
                },
            },
            ServerEvent::PartnerDisconnected => ServerEvent::PartnerDisconnected,
            ServerEvent::ReceiveMessage { message, sender, reply_to } => ServerEvent::ReceiveMessage {
                message: EncryptedMessage {
                    encrypted: message.encrypted.clone(),
                    nonce: message.nonce.clone(),
                    reply_to: message.reply_to,
                },
                sender: sender.clone(),
                reply_to: *reply_to,
            },
            ServerEvent::TypingStarted { username } => ServerEvent::TypingStarted {
                username: match username {
                    Some(u) => Some(u.clone()),
                    None => None,
                },
            },
            ServerEvent::TypingStopped { username } => ServerEvent::TypingStopped {
                username: match username {
                    Some(u) => Some(u.clone()),
                    None => None,
                },
            },
            ServerEvent::FileSendingStarted { file_id, username } => ServerEvent::FileSendingStarted {
                file_id: file_id.clone(),
                username: username.clone(),
            },
            ServerEvent::FileSendingEnded { file_id, username } => ServerEvent::FileSendingEnded {
                file_id: file_id.clone(),
                username: username.clone(),
            },
            ServerEvent::MessageDeleted { message_id } => ServerEvent::MessageDeleted {
                message_id: message_id.clone(),
            },
            ServerEvent::GroupMembersUpdate { usernames } => ServerEvent::GroupMembersUpdate {
                usernames: clone_string_vec(usernames),
            },
            ServerEvent::UserJoinedGroup { username } => ServerEvent::UserJoinedGroup {
                username: username.clone(),
            },
            ServerEvent::UserLeftGroup { username } => ServerEvent::UserLeftGroup {
                username: username.clone(),
            },
            ServerEvent::GroupNotFound => ServerEvent::GroupNotFound,
            ServerEvent::WebRtc { event_type, payload } => ServerEvent::WebRtc {
                event_type: event_type.clone(),
                payload: payload.clone(),
            },
        }
    }
}

/// A copy of a list of display names whose view is the original's.
pub(crate) fn clone_string_vec(v: &Vec<String>) -> (r: Vec<String>)
    ensures
        r.deep_view() == v.deep_view(),
        r@.len() == v@.len(),
{
    let n = v.len();
    let mut r: Vec<String> = Vec::new();
    let mut i: usize = 0;
    while i < n
        invariant
            0 <= i <= n,
            n == v@.len(),
            r@.len() == i,
            forall|k: int| 0 <= k < i ==> #[trigger] r@[k]@ == v@[k]@,
        decreases n - i,
    {
        r.push(v[i].clone());
        i += 1;
    }
    proof {
        assert(r.deep_view() =~= v.deep_view());
    }
    r
}

impl ChatServer {
    /// The sender's display name, or empty for an unknown sender.
    fn sender_name(&self, conn: u64) -> (r: String)
        ensures
            self@.users.contains_key(conn) ==> r@ == self@.users[conn].username,
    {
        match self.users.get(&conn) {
            Some(u) => u.username.clone(),
            None => String::new(),
        }
    }

    /// The shared audience walk behind every scoped send: resolves the
    /// group or the partner and collects one delivery per recipient.
    fn fan_deliveries(
        &self,
        conn: u64,
        is_group_chat: bool,
        group_code: Option<String>,
        group_event: &ServerEvent,
        pair_event: &ServerEvent,
        exclude_sender: bool,
        echo_sender: bool,
    ) -> (r: Vec<Delivery>)
        requires
            inv(self@),
        ensures
            views_of(r@) == scoped_deliveries(
                self@,
                conn,
                is_group_chat,
                opt_view(group_code),
                group_event@,
                pair_event@,
                exclude_sender,
                echo_sender,
            ),
    {
        let ghost s = self@;
        let ghost gcv = opt_view(group_code);
        let mut out: Vec<Delivery> = Vec::new();
        proof {
            assert(views_of(out@) =~= Seq::<DeliveryV>::empty());
        }
        match self.users.get(&conn) {
            None => out,
            Some(user) => {
                proof {
                    assert(s.users.contains_key(conn));
                    assert(user@ == s.users[conn]);
                }
                if is_group_chat {
                    let code_res: Option<String> = match group_code {
                        Some(c) => Some(c),
                        None => match &user.group_id {
                            Some(g) => Some(g.clone()),
                            None => None,
                        },
                    };
                    match code_res {
                        None => {
                            proof {
                                assert(resolved_group_code(s, conn, gcv) is None);
                            }
                            out
                        }
                        Some(code) => {
                            proof {
                                assert(resolved_group_code(s, conn, gcv) == Some(code@));
                            }
                            match find_group_index(&self.groups, code.as_str()) {
                                None => {
                                    proof {
                                        if s.has_group(code@) {
                                            let gj = s.group_index(code@);
                                            assert(s.groups[gj] == self.groups@[gj]@);
                                            assert(false);
                                        }
                                    }
                                    out
                                }
                                Some(gi) => {
                                    proof {
                                        assert(s.groups[gi as int] == self.groups@[gi as int]@);
                                        assert(s.groups[gi as int].code == code@);
                                        assert(s.has_group(code@));
                                        assert(groups_inv(s));
                                        let gj = s.group_index(code@);
                                        assert(0 <= gj < s.groups.len() && s.groups[gj].code
                                            == code@);
                                        assert(gj == gi as int);
                                    }
                                    let ghost memv = s.groups[gi as int].members;
                                    let ghost skipv: Option<u64> = if exclude_sender {
                                        Some(conn)
                                    } else {
                                        None
                                    };
                                    let ghost evv = group_event@;
                                    let n = self.groups[gi].members.len();
                                    proof {
                                        assert(memv.take(0) =~= Seq::<u64>::empty());
                                    }
                                    let mut i: usize = 0;
                                    while i < n
                                        invariant
                                            0 <= i <= n,
                                            self@ == s,
                                            (gi as int) < s.groups.len(),
                                            memv == s.groups[gi as int].members,
                                            n == memv.len(),
                                            self.groups@[gi as int]@.members == memv,
                                            skipv == (if exclude_sender {
                                                Some(conn)
                                            } else {
                                                None::<u64>
                                            }),
                                            evv == group_event@,
                                            views_of(out@) == fan_single(
                                                memv.take(i as int),
                                                skipv,
                                                s.sessions,
                                                evv,
                                            ),
                                        decreases n - i,
                                    {
                                        proof {
                                            lemma_fan_single_step(
                                                memv,
                                                skipv,
                                                s.sessions,
                                                evv,
                                                i as int,
                                            );
                                        }
                                        let m = self.groups[gi].members[i];
                                        proof {
                                            assert(m == memv[i as int]);
                                        }
                                        let eligible = !(exclude_sender && m == conn);
                                        proof {
                                            assert(eligible == (skipv != Some(m)));
                                        }
                                        if eligible {
                                            if self.sessions.contains(&m) {
                                                let d = Delivery {
                                                    to: m,
                                                    event: group_event.duplicate(),
                                                };
                                                proof {
                                                    lemma_views_push(out@, d);
                                                    assert(d@ == (DeliveryV {
                                                        to: m,
                                                        event: evv,
                                                    }));
                                                }
                                                out.push(d);
                                            }
                                        }
                                        i += 1;
                                    }
                                    proof {
                                        assert(memv.take(n as int) =~= memv);
                                    }
                                    out
                                }
                            }
                        }
                    }
                } else {
                    match user.partner_id {
                        Some(p) => {
                            if self.has_session(p) {
                                let d = Delivery { to: p, event: pair_event.duplicate() };
                                proof {
                                    lemma_views_push(out@, d);
                                }
                                out.push(d);
                            }
                        }
                        None => {}
                    }
                    if echo_sender {
                        if self.has_session(conn) {
                            let d = Delivery { to: conn, event: pair_event.duplicate() };
                            proof {
                                lemma_views_push(out@, d);
                            }
                            out.push(d);
                        }
                    }
                    proof {
                        let pd: Seq<DeliveryV> = match s.users[conn].partner {
                            Some(p) => if s.sessions.contains(p) {
                                seq![DeliveryV { to: p, event: pair_event@ }]
                            } else {
                                Seq::<DeliveryV>::empty()
                            },
                            None => Seq::<DeliveryV>::empty(),
                        };
                        let ed: Seq<DeliveryV> = if echo_sender && s.sessions.contains(conn) {
                            seq![DeliveryV { to: conn, event: pair_event@ }]
                        } else {
                            Seq::<DeliveryV>::empty()
                        };
                        assert(views_of(out@) =~= pd + ed);
                    }
                    out
                }
            }
        }
    }

    /// Fans an encrypted message out to the sender's audience — the
    /// resolved group minus the sender, or the bound partner — each
    /// recipient getting `receive_message` with the payload, the sender's
    /// display name and the reply hint.
    pub fn send_message(
        &self,
        conn: u64,
        message: EncryptedMessage,
        is_group_chat: bool,
        group_code: Option<String>,
    ) -> (r: Vec<Delivery>)
        requires
            inv(self@),
        ensures
            views_of(r@) == scoped_deliveries(
                self@,
                conn,
                is_group_chat,
                opt_view(group_code),
                receive_message_event(self@, conn, message@),
                receive_message_event(self@, conn, message@),
                true,
                false,
            ),
    {
        let ev = ServerEvent::ReceiveMessage {
            message: EncryptedMessage {
                encrypted: message.encrypted.clone(),
                nonce: message.nonce.clone(),
                reply_to: message.reply_to,
            },
            sender: self.sender_name(conn),
            reply_to: message.reply_to,
        };
        let r = self.fan_deliveries(conn, is_group_chat, group_code, &ev, &ev, true, false);
        proof {
            if self@.users.contains_key(conn) {
                assert(ev@ == receive_message_event(self@, conn, message@));
            }
        }
        r
    }

    /// Announces that the sender started typing: the group audience learns
    /// who types, a pairwise partner only that typing started.
    pub fn typing_start(
        &self,
        conn: u64,
        is_group_chat: bool,
        group_code: Option<String>,
    ) -> (r: Vec<Delivery>)
        requires
            inv(self@),
        ensures
            views_of(r@) == scoped_deliveries(
                self@,
                conn,
                is_group_chat,
                opt_view(group_code),
                EventV::TypingStarted { username: Some(self@.users[conn].username) },
                EventV::TypingStarted { username: None },
                true,
                false,
            ),
    {
        let gev = ServerEvent::TypingStarted { username: Some(self.sender_name(conn)) };
        let pev = ServerEvent::TypingStarted { username: None };
        let r = self.fan_deliveries(conn, is_group_chat, group_code, &gev, &pev, true, false);
        r
    }

    /// Announces that the sender stopped typing, with the same audience
    /// rule as `typing_start`.
    pub fn typing_stop(
        &self,
        conn: u64,
        is_group_chat: bool,
        group_code: Option<String>,
    ) -> (r: Vec<Delivery>)
        requires
            inv(self@),
        ensures
            views_of(r@) == scoped_deliveries(
                self@,
                conn,
                is_group_chat,
                opt_view(group_code),
                EventV::TypingStopped { username: Some(self@.users[conn].username) },
                EventV::TypingStopped { username: None },
                true,
                false,
            ),
    {
        let gev = ServerEvent::TypingStopped { username: Some(self.sender_name(conn)) };
        let pev = ServerEvent::TypingStopped { username: None };
        let r = self.fan_deliveries(conn, is_group_chat, group_code, &gev, &pev, true, false);
        r
    }

    /// Announces that the sender began uploading a file.
    pub fn file_sending_start(
        &self,
        conn: u64,
        file_id: String,
        is_group_chat: bool,
        group_code: Option<String>,
    ) -> (r: Vec<Delivery>)
        requires
            inv(self@),
        ensures
            views_of(r@) == scoped_deliveries(
                self@,
                conn,
                is_group_chat,
                opt_view(group_code),
                EventV::FileSendingStarted {
                    file_id: file_id@,
                    username: self@.users[conn].username,
                },
                EventV::FileSendingStarted {
                    file_id: file_id@,
                    username: self@.users[conn].username,
                },
                true,
                false,
            ),
    {
        let ev = ServerEvent::FileSendingStarted {
            file_id: file_id,
            username: self.sender_name(conn),
        };
        let r = self.fan_deliveries(conn, is_group_chat, group_code, &ev, &ev, true, false);
        r
    }

    /// Announces that the sender finished uploading a file.
    pub fn file_sending_end(
        &self,
        conn: u64,
        file_id: String,
        is_group_chat: bool,
        group_code: Option<String>,
    ) -> (r: Vec<Delivery>)
        requires
            inv(self@),
        ensures
            views_of(r@) == scoped_deliveries(
                self@,
                conn,
                is_group_chat,
                opt_view(group_code),
                EventV::FileSendingEnded {
                    file_id: file_id@,
                    username: self@.users[conn].username,
                },
                EventV::FileSendingEnded {
                    file_id: file_id@,
                    username: self@.users[conn].username,
                },
                true,
                false,
            ),
    {
        let ev = ServerEvent::FileSendingEnded {
            file_id: file_id,
            username: self.sender_name(conn),
        };
        let r = self.fan_deliveries(conn, is_group_chat, group_code, &ev, &ev, true, false);
        r
    }

    /// Announces a deleted message. In group scope the whole member list —
    /// the sender included — hears it once; in pairwise scope the partner
    /// hears it and the sender receives its own echo besides.
    pub fn delete_message(
        &self,
        conn: u64,
        message_id: String,
        is_group_chat: bool,
        group_code: Option<String>,
    ) -> (r: Vec<Delivery>)
        requires
            inv(self@),
        ensures
            views_of(r@) == scoped_deliveries(
                self@,
                conn,
                is_group_chat,
                opt_view(group_code),
                EventV::MessageDeleted { message_id: message_id@ },
                EventV::MessageDeleted { message_id: message_id@ },
                false,
                true,
            ),
    {
        let ev = ServerEvent::MessageDeleted { message_id: message_id };
        let r = self.fan_deliveries(conn, is_group_chat, group_code, &ev, &ev, false, true);
        r
    }

    /// Relays an opaque call-negotiation payload. Group scope requires an
    /// explicit code and reaches every member but the sender; pairwise
    /// scope reaches exactly the caller-supplied target connection, if its
    /// queue is live — not the sender's stored partner.
    pub fn relay_webrtc_event(
        &self,
        sender_id: u64,
        event_type: String,
        target_id: String,
        payload: String,
        is_group_chat: bool,
        group_code: Option<String>,
    ) -> (r: Vec<Delivery>)
        requires
            inv(self@),
        ensures
            views_of(r@) == relay_deliveries(
                self@,
                sender_id,
                event_type@,
                target_id@,
                payload@,
                is_group_chat,
                opt_view(group_code),
            ),
    {
        let mut out: Vec<Delivery> = Vec::new();
        proof {
            assert(views_of(out@) =~= Seq::<DeliveryV>::empty());
        }
        if !self.users.contains_key(&sender_id) {
            return out;
        }
        let ev = ServerEvent::WebRtc { event_type: event_type, payload: payload };
        if is_group_chat {
            match group_code {
                Some(code) => {
                    let r = self.fan_deliveries(
                        sender_id,
                        true,
                        Some(code),
                        &ev,
                        &ev,
                        true,
                        false,
                    );
                    r
                }
                None => out,
            }
        } else {
            match parse_conn_id(target_id.as_str()) {
                Some(t) => {
                    if self.has_session(t) {
                        let d = Delivery { to: t, event: ev };
                        proof {
                            lemma_views_push(out@, d);
                        }
                        out.push(d);
                    }
                    out
                }
                None => out,
            }
        }
    }
}

} // verus!
