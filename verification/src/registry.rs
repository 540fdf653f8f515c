//! The room/session registry: the single authority for room membership and
//! for the set of live connection identities.
//!
//! Every mutating operation returns the fan-out it causes as a list of
//! [`Delivery`] values (recipient identity plus text line); the caller owns
//! the transport and performs the actual sends.  Room membership is
//! exclusive: joining a room removes the identity from every other room.
use crate::text::dec_digits;
use crate::text::str_eq;
use crate::text::usize_to_string;
use vstd::prelude::*;

verus! {

broadcast use vstd::seq_lib::lemma_seq_contains_after_push;

/// One text line addressed to one connection.
pub struct Message(pub String);

/// Request: a new connection asks to be registered.
pub struct Connect {}

/// Request: the connection with this identity is gone.
pub struct Disconnect {
    pub id: usize,
}

/// Request: deliver `msg` to every member of `room` except the sender `id`.
pub struct ClientMessage {
    pub id: usize,
    pub msg: String,
    pub room: String,
}

/// Request: a snapshot of the current room names.
pub struct ListRooms {}

/// Request: move the connection `id` into the room called `name`.
pub struct Join {
    pub id: usize,
    pub name: String,
}

/// A pending outbound line: the registry asks its caller to enqueue
/// `msg` on the sink of connection `to`.
pub struct Delivery {
    pub to: usize,
    pub msg: Message,
}

impl View for Delivery {
    type V = (usize, Seq<char>);

    open spec fn view(&self) -> (usize, Seq<char>) {
        (self.to, self.msg.0@)
    }
}

/// A named room together with the identities of its current members.
pub struct Room {
    pub name: String,
    pub members: Vec<usize>,
}

/// Mathematical state of one room.
#[verifier::ext_equal]
pub ghost struct RoomModel {
    pub name: Seq<char>,
    pub members: Seq<usize>,
}

/// Mathematical state of the whole registry: live identities in
/// registration order, rooms in creation order, the next identity to
/// assign, and the total number of successful registrations so far.
#[verifier::ext_equal]
pub ghost struct RegistryModel {
    pub live: Seq<usize>,
    pub rooms: Seq<RoomModel>,
    pub next: int,
    pub visitors: int,
}

/// `s` with every occurrence of `id` removed, order otherwise kept.
pub open spec fn seq_without(s: Seq<usize>, id: usize) -> Seq<usize>
    decreases s.len(),
{
    if s.len() == 0 {
        Seq::empty()
    } else {
        let init = seq_without(s.drop_last(), id);
        if s.last() == id {
            init
        } else {
            init.push(s.last())
        }
    }
}

/// The members that a broadcast reaches: those of `members`, in order,
/// that are not the skipped identity and have a live session record.
pub open spec fn recip_seq(members: Seq<usize>, live: Seq<usize>, skip: usize) -> Seq<usize>
    decreases members.len(),
{
    if members.len() == 0 {
        Seq::empty()
    } else {
        let init = recip_seq(members.drop_last(), live, skip);
        if members.last() != skip && live.contains(members.last()) {
            init.push(members.last())
        } else {
            init
        }
    }
}

/// The same text line addressed to each identity of `ids`, in order.
pub open spec fn to_all(ids: Seq<usize>, text: Seq<char>) -> Seq<(usize, Seq<char>)> {
    ids.map_values(|id: usize| (id, text))
}

/// The abstract content of a delivery list.
pub open spec fn dv(ds: Seq<Delivery>) -> Seq<(usize, Seq<char>)> {
    ds.map_values(|d: Delivery| d@)
}

/// The character sequences of a list of room names.
pub open spec fn names_of(ss: Seq<String>) -> Seq<Seq<char>> {
    ss.map_values(|s: String| s@)
}

impl RegistryModel {
    pub open spec fn has_room(self, name: Seq<char>) -> bool {
        exists|j: int| 0 <= j < self.rooms.len() && self.rooms[j].name == name
    }

    pub open spec fn room_idx(self, name: Seq<char>) -> int {
        choose|j: int| 0 <= j < self.rooms.len() && self.rooms[j].name == name
    }

    pub open spec fn members_of(self, name: Seq<char>) -> Seq<usize> {
        if self.has_room(name) {
            self.rooms[self.room_idx(name)].members
        } else {
            Seq::empty()
        }
    }

    pub open spec fn is_live(self, id: usize) -> bool {
        self.live.contains(id)
    }

    /// Who a broadcast to `name` reaches when `skip` is excluded.
    pub open spec fn recipients(self, name: Seq<char>, skip: usize) -> Seq<usize> {
        recip_seq(self.members_of(name), self.live, skip)
    }

    pub open spec fn room_has(self, name: Seq<char>, id: usize) -> bool {
        self.members_of(name).contains(id)
    }

    /// The registry as it stands once `id` has left every room.
    pub open spec fn without_member(self, id: usize) -> RegistryModel {
        RegistryModel {
            live: self.live,
            rooms: self.rooms.map_values(
                |r: RoomModel| RoomModel { name: r.name, members: seq_without(r.members, id) },
            ),
            next: self.next,
            visitors: self.visitors,
        }
    }

    pub open spec fn wf(self) -> bool {
        &&& self.live.no_duplicates()
        &&& forall|j: int|
            0 <= j < self.rooms.len() ==> (#[trigger] self.rooms[j].members).no_duplicates()
        &&& forall|j: int, k: int|
            #![trigger self.rooms[j].name, self.rooms[k].name]
            0 <= j < self.rooms.len() && 0 <= k < self.rooms.len() && j != k ==> self.rooms[j].name
                != self.rooms[k].name
        &&& self.has_room("main"@)
        &&& forall|i: int| 0 <= i < self.live.len() ==> #[trigger] self.live[i] < self.next
        &&& 1 <= self.next
        &&& self.visitors == self.next - 1
    }
}

/// The names, in room order, of the rooms that contain `id`.
pub open spec fn rooms_containing(rooms: Seq<RoomModel>, id: usize) -> Seq<Seq<char>>
    decreases rooms.len(),
{
    if rooms.len() == 0 {
        Seq::empty()
    } else {
        let init = rooms_containing(rooms.drop_last(), id);
        if rooms.last().members.contains(id) {
            init.push(rooms.last().name)
        } else {
            init
        }
    }
}

/// The concatenated fan-out of one text line to each room of `names`
/// in turn, as the registry `m` stands.
pub open spec fn fanout(m: RegistryModel, names: Seq<Seq<char>>, text: Seq<char>, skip: usize) -> Seq<
    (usize, Seq<char>),
>
    decreases names.len(),
{
    if names.len() == 0 {
        Seq::empty()
    } else {
        fanout(m, names.drop_last(), text, skip) + to_all(m.recipients(names.last(), skip), text)
    }
}

/// The informational line broadcast after each registration.
pub open spec fn visitors_text(n: int) -> Seq<char> {
    "Total visitors "@ + dec_digits(n as nat)
}

proof fn lemma_to_all_push(ids: Seq<usize>, text: Seq<char>, id: usize)
    ensures
        to_all(ids.push(id), text) == to_all(ids, text).push((id, text)),
{
    assert(to_all(ids.push(id), text) =~= to_all(ids, text).push((id, text)));
}

proof fn lemma_dv_push(ds: Seq<Delivery>, d: Delivery)
    ensures
        dv(ds.push(d)) == dv(ds).push(d@),
{
    assert(dv(ds.push(d)) =~= dv(ds).push(d@));
}

proof fn lemma_dv_add(a: Seq<Delivery>, b: Seq<Delivery>)
    ensures
        dv(a + b) == dv(a) + dv(b),
{
    assert(dv(a + b) =~= dv(a) + dv(b));
}

/// Removing one identity removes exactly that identity.
pub proof fn lemma_seq_without_contains(s: Seq<usize>, id: usize, x: usize)
    ensures
        seq_without(s, id).contains(x) <==> (s.contains(x) && x != id),
    decreases s.len(),
{
    if s.len() > 0 {
        lemma_seq_without_contains(s.drop_last(), id, x);
        assert(s.drop_last().contains(x) || s.last() == x ==> s.contains(x));
        if s.contains(x) {
            let i = choose|i: int| 0 <= i < s.len() && s[i] == x;
            if i < s.len() - 1 {
                assert(s.drop_last()[i] == x);
                assert(s.drop_last().contains(x));
            }
        }
        let init = seq_without(s.drop_last(), id);
        if s.last() != id {
            assert(init.push(s.last()).contains(x) <==> (init.contains(x) || s.last() == x));
        }
    }
}

/// Removal keeps distinctness.
pub proof fn lemma_seq_without_distinct(s: Seq<usize>, id: usize)
    requires
        s.no_duplicates(),
    ensures
        seq_without(s, id).no_duplicates(),
    decreases s.len(),
{
    if s.len() > 0 {
        assert(s.drop_last().no_duplicates());
        lemma_seq_without_distinct(s.drop_last(), id);
        if s.last() != id {
            lemma_seq_without_contains(s.drop_last(), id, s.last());
            assert(!s.drop_last().contains(s.last())) by {
                if s.drop_last().contains(s.last()) {
                    let i = choose|i: int| 0 <= i < s.len() - 1 && s.drop_last()[i] == s.last();
                    assert(s[i] == s[s.len() - 1]);
                }
            }
        }
    }
}

/// Removing an absent identity changes nothing.
pub proof fn lemma_seq_without_absent(s: Seq<usize>, id: usize)
    requires
        !s.contains(id),
    ensures
        seq_without(s, id) == s,
    decreases s.len(),
{
    if s.len() > 0 {
        assert(!s.drop_last().contains(id)) by {
            if s.drop_last().contains(id) {
                let i = choose|i: int| 0 <= i < s.len() - 1 && s.drop_last()[i] == id;
                assert(s[i] == id);
            }
        }
        lemma_seq_without_absent(s.drop_last(), id);
        assert(s[s.len() - 1] != id);
        assert(seq_without(s, id) =~= s);
    }
}

/// Unregistering a live identity shrinks the live list by exactly one.
pub proof fn lemma_seq_without_len(s: Seq<usize>, id: usize)
    requires
        s.no_duplicates(),
        s.contains(id),
    ensures
        seq_without(s, id).len() == s.len() - 1,
    decreases s.len(),
{
    if s.last() == id {
        assert(!s.drop_last().contains(id)) by {
            if s.drop_last().contains(id) {
                let i = choose|i: int| 0 <= i < s.len() - 1 && s.drop_last()[i] == id;
                assert(s[i] == s[s.len() - 1]);
            }
        }
        lemma_seq_without_absent(s.drop_last(), id);
    } else {
        assert(s.drop_last().contains(id)) by {
            let i = choose|i: int| 0 <= i < s.len() && s[i] == id;
            assert(s.drop_last()[i] == id);
        }
        assert(s.drop_last().no_duplicates());
        lemma_seq_without_len(s.drop_last(), id);
    }
}

/// Exactly the live members other than the skipped identity are reached.
pub proof fn lemma_recip_contains(members: Seq<usize>, live: Seq<usize>, skip: usize, x: usize)
    ensures
        recip_seq(members, live, skip).contains(x) <==> (members.contains(x) && x != skip
            && live.contains(x)),
    decreases members.len(),
{
    if members.len() > 0 {
        lemma_recip_contains(members.drop_last(), live, skip, x);
        assert(members.drop_last().contains(x) || members.last() == x ==> members.contains(x));
        if members.contains(x) {
            let i = choose|i: int| 0 <= i < members.len() && members[i] == x;
            if i < members.len() - 1 {
                assert(members.drop_last()[i] == x);
            }
        }
        let init = recip_seq(members.drop_last(), live, skip);
        if members.last() != skip && live.contains(members.last()) {
            assert(init.push(members.last()).contains(x) <==> (init.contains(x) || members.last()
                == x));
        }
    }
}

/// Room names are unique, so an index whose room carries the name settles
/// which room the name denotes.
pub proof fn lemma_room_idx_unique(m: RegistryModel, name: Seq<char>, j: int)
    requires
        m.wf(),
        0 <= j < m.rooms.len(),
        m.rooms[j].name == name,
    ensures
        m.has_room(name),
        m.room_idx(name) == j,
        m.members_of(name) == m.rooms[j].members,
{
    assert(m.has_room(name));
    let c = m.room_idx(name);
    assert(0 <= c < m.rooms.len() && m.rooms[c].name == name);
    if c != j {
        assert(m.rooms[c].name != m.rooms[j].name);
    }
}

/// One registration-interface event: an identity that `handle_connect`
/// assigned, or an identity handed to `handle_disconnect`.
pub ghost enum RegOp {
    Register(usize),
    Unregister(usize),
}

/// The live list that replaying `ops` from `live` leaves behind.  The
/// contracts of `handle_connect` and `handle_disconnect` state that each
/// call performs exactly one such step on the registry's live list.
pub open spec fn apply_ops(live: Seq<usize>, ops: Seq<RegOp>) -> Seq<usize>
    decreases ops.len(),
{
    if ops.len() == 0 {
        live
    } else {
        let prev = apply_ops(live, ops.drop_last());
        match ops.last() {
            RegOp::Register(id) => prev.push(id),
            RegOp::Unregister(id) => seq_without(prev, id),
        }
    }
}

/// No event after position `i` unregisters `x`.
pub open spec fn no_unregister_after(ops: Seq<RegOp>, i: int, x: usize) -> bool {
    forall|k: int| i < k < ops.len() ==> ops[k] != RegOp::Unregister(x)
}

/// Some event of `ops` registers `x` and no later event unregisters it.
pub open spec fn registered_not_unregistered(ops: Seq<RegOp>, x: usize) -> bool {
    exists|i: int|
        0 <= i < ops.len() && ops[i] == RegOp::Register(x) && #[trigger] no_unregister_after(
            ops,
            i,
            x,
        )
}

/// Law: after any sequence of register and unregister events, replayed from
/// an empty registry, the identities with a live session record are exactly
/// those registered at some point and not unregistered afterwards.
pub proof fn lemma_live_tracks_registrations(ops: Seq<RegOp>, x: usize)
    ensures
        apply_ops(Seq::empty(), ops).contains(x) <==> registered_not_unregistered(ops, x),
    decreases ops.len(),
{
    if ops.len() == 0 {
        assert(!apply_ops(Seq::<usize>::empty(), ops).contains(x));
        assert(!registered_not_unregistered(ops, x)) by {
            if registered_not_unregistered(ops, x) {
                let i = choose|i: int|
                    0 <= i < ops.len() && ops[i] == RegOp::Register(x)
                        && #[trigger] no_unregister_after(ops, i, x);
                assert(false);
            }
        }
    } else {
        let pre = ops.drop_last();
        lemma_live_tracks_registrations(pre, x);
        let prev = apply_ops(Seq::empty(), pre);
        let res = apply_ops(Seq::empty(), ops);
        match ops.last() {
            RegOp::Register(y) => {
                assert(res == prev.push(y));
                if x == y {
                    assert(ops[ops.len() - 1] == RegOp::Register(x));
                    assert(no_unregister_after(ops, ops.len() - 1, x));
                    assert(registered_not_unregistered(ops, x));
                    assert(res.contains(x));
                } else {
                    if registered_not_unregistered(pre, x) {
                        let i = choose|i: int|
                            0 <= i < pre.len() && pre[i] == RegOp::Register(x)
                                && #[trigger] no_unregister_after(pre, i, x);
                        assert(ops[i] == RegOp::Register(x));
                        assert(no_unregister_after(ops, i, x)) by {
                            assert forall|k: int| i < k < ops.len() implies ops[k]
                                != RegOp::Unregister(x) by {
                                if k < ops.len() - 1 {
                                    assert(pre[k] == ops[k]);
                                    assert(pre[k] != RegOp::Unregister(x));
                                }
                            }
                        }
                        assert(registered_not_unregistered(ops, x));
                    }
                    if registered_not_unregistered(ops, x) {
                        let i = choose|i: int|
                            0 <= i < ops.len() && ops[i] == RegOp::Register(x)
                                && #[trigger] no_unregister_after(ops, i, x);
                        assert(i < ops.len() - 1);
                        assert(pre[i] == ops[i]);
                        assert(no_unregister_after(pre, i, x)) by {
                            assert forall|k: int| i < k < pre.len() implies pre[k]
                                != RegOp::Unregister(x) by {
                                assert(pre[k] == ops[k]);
                                assert(ops[k] != RegOp::Unregister(x));
                            }
                        }
                        assert(registered_not_unregistered(pre, x));
                    }
                }
            },
            RegOp::Unregister(y) => {
                assert(res == seq_without(prev, y));
                lemma_seq_without_contains(prev, y, x);
                if x == y {
                    assert(!res.contains(x));
                    assert(!registered_not_unregistered(ops, x)) by {
                        if registered_not_unregistered(ops, x) {
                            let i = choose|i: int|
                                0 <= i < ops.len() && ops[i] == RegOp::Register(x)
                                    && #[trigger] no_unregister_after(ops, i, x);
                            assert(i < ops.len() - 1);
                            assert(ops[ops.len() - 1] != RegOp::Unregister(x));
                        }
                    }
                } else {
                    if registered_not_unregistered(pre, x) {
                        let i = choose|i: int|
                            0 <= i < pre.len() && pre[i] == RegOp::Register(x)
                                && #[trigger] no_unregister_after(pre, i, x);
                        assert(ops[i] == RegOp::Register(x));
                        assert(no_unregister_after(ops, i, x)) by {
                            assert forall|k: int| i < k < ops.len() implies ops[k]
                                != RegOp::Unregister(x) by {
                                if k < ops.len() - 1 {
                                    assert(pre[k] == ops[k]);
                                    assert(pre[k] != RegOp::Unregister(x));
                                }
                            }
                        }
                        assert(registered_not_unregistered(ops, x));
                    }
                    if registered_not_unregistered(ops, x) {
                        let i = choose|i: int|
                            0 <= i < ops.len() && ops[i] == RegOp::Register(x)
                                && #[trigger] no_unregister_after(ops, i, x);
                        assert(i < ops.len() - 1);
                        assert(pre[i] == ops[i]);
                        assert(no_unregister_after(pre, i, x)) by {
                            assert forall|k: int| i < k < pre.len() implies pre[k]
                                != RegOp::Unregister(x) by {
                                assert(pre[k] == ops[k]);
                                assert(ops[k] != RegOp::Unregister(x));
                            }
                        }
                        assert(registered_not_unregistered(pre, x));
                    }
                }
            },
        }
    }
}

/// Law: a broadcast in room `name` on behalf of `sender` delivers the text
/// to every other live member `id` of the room, and never to the sender
/// itself.  `handle_client_message` returns exactly these deliveries.
pub proof fn lemma_broadcast_delivery(
    m: RegistryModel,
    name: Seq<char>,
    sender: usize,
    id: usize,
    text: Seq<char>,
)
    requires
        m.room_has(name, id),
        m.is_live(id),
        id != sender,
    ensures
        exists|k: int|
            0 <= k < to_all(m.recipients(name, sender), text).len() && #[trigger] to_all(
                m.recipients(name, sender),
                text,
            )[k] == (id, text),
        forall|k: int|
            0 <= k < to_all(m.recipients(name, sender), text).len() ==> (#[trigger] to_all(
                m.recipients(name, sender),
                text,
            )[k]).0 != sender,
{
    let rs = m.recipients(name, sender);
    lemma_recip_contains(m.members_of(name), m.live, sender, id);
    let k = choose|k: int| 0 <= k < rs.len() && rs[k] == id;
    assert(to_all(rs, text)[k] == (id, text));
    assert forall|k2: int|
        0 <= k2 < to_all(rs, text).len() implies (#[trigger] to_all(rs, text)[k2]).0 != sender by {
        assert(rs.contains(rs[k2]));
        lemma_recip_contains(m.members_of(name), m.live, sender, rs[k2]);
    }
}

/// Law: unregistering a live identity lowers the count of live session
/// records by exactly one.
pub proof fn lemma_unregister_shrinks_live(m: RegistryModel, id: usize)
    requires
        m.wf(),
        m.is_live(id),
    ensures
        seq_without(m.live, id).len() == m.live.len() - 1,
{
    lemma_seq_without_len(m.live, id);
}

/// The registry. All room and session state lives here and is mutated
/// only through the five request handlers.
pub struct ChatServer {
    sessions: Vec<usize>,
    rooms: Vec<Room>,
    next_id: usize,
    visitor_count: usize,
}

impl View for ChatServer {
    type V = RegistryModel;

    closed spec fn view(&self) -> RegistryModel {
        RegistryModel {
            live: self.sessions@,
            rooms: self.rooms@.map_values(
                |r: Room| RoomModel { name: r.name@, members: r.members@ },
            ),
            next: self.next_id as int,
            visitors: self.visitor_count as int,
        }
    }
}

fn contains_id(v: &Vec<usize>, x: usize) -> (b: bool)
    ensures
        b == v@.contains(x),
{
    let mut i: usize = 0;
    while i < v.len()
        invariant
            i <= v@.len(),
            forall|k: int| 0 <= k < i ==> v@[k] != x,
        decreases v@.len() - i,
    {
        if v[i] == x {
            proof {
                assert(v@[i as int] == x);
            }
            return true;
        }
        i = i + 1;
    }
    false
}

fn filtered(v: &Vec<usize>, id: usize) -> (r: (Vec<usize>, bool))
    ensures
        r.0@ == seq_without(v@, id),
        r.1 == v@.contains(id),
{
    let ghost orig = v@;
    let mut out: Vec<usize> = Vec::new();
    let mut was = false;
    let mut i: usize = 0;
    while i < v.len()
        invariant
            i <= v@.len(),
            v@ == orig,
            out@ == seq_without(orig.take(i as int), id),
            was == orig.take(i as int).contains(id),
        decreases v@.len() - i,
    {
        let x = v[i];
        proof {
            assert(orig.take(i as int + 1).drop_last() =~= orig.take(i as int));
            assert(orig.take(i as int + 1).last() == x);
            assert(orig.take(i as int + 1).contains(id) <==> (orig.take(i as int).contains(id) || x
                == id)) by {
                if orig.take(i as int).contains(id) {
                    let k = choose|k: int| 0 <= k < i && orig.take(i as int)[k] == id;
                    assert(orig.take(i as int + 1)[k] == id);
                }
                if x == id {
                    assert(orig.take(i as int + 1)[i as int] == id);
                }
                if orig.take(i as int + 1).contains(id) {
                    let k = choose|k: int| 0 <= k <= i && #[trigger] orig.take(i as int + 1)[k]
                        == id;
                    if k < i {
                        assert(orig.take(i as int)[k] == id);
                    }
                }
            }
        }
        if x == id {
            was = true;
        } else {
            out.push(x);
        }
        i = i + 1;
    }
    proof {
        assert(orig.take(v@.len() as int) =~= orig);
    }
    (out, was)
}

impl ChatServer {
    pub open spec fn wf(&self) -> bool {
        self@.wf()
    }

    /// A fresh registry: no live session, one empty default room.
    pub fn new() -> (s: ChatServer)
        ensures
            s.wf(),
            s@.live == Seq::<usize>::empty(),
            s@.rooms.len() == 1,
            s@.rooms[0].name == "main"@,
            s@.rooms[0].members == Seq::<usize>::empty(),
            s@.next == 1,
            s@.visitors == 0,
    {
        let mut rooms: Vec<Room> = Vec::new();
        rooms.push(Room { name: "main".to_owned(), members: Vec::new() });
        let s = ChatServer { sessions: Vec::new(), rooms, next_id: 1, visitor_count: 0 };
        proof {
            assert(s@.live =~= Seq::<usize>::empty());
            assert(s@.rooms[0].members =~= Seq::<usize>::empty());
            assert(s@.has_room("main"@)) by {
                assert(s@.rooms[0].name == "main"@);
            }
        }
        s
    }

    /// The total number of successful registrations so far; safe to read
    /// between any two operations.
    pub fn get_count(&self) -> (n: usize)
        ensures
            n as int == self@.visitors,
    {
        self.visitor_count
    }

    /// The number of live session records.
    pub fn session_count(&self) -> (n: usize)
        ensures
            n as int == self@.live.len(),
    {
        self.sessions.len()
    }

    /// Whether `id` currently has a live session record.
    pub fn is_registered(&self, id: usize) -> (b: bool)
        ensures
            b == self@.is_live(id),
    {
        contains_id(&self.sessions, id)
    }

    fn find_room(&self, name: &str) -> (r: Option<usize>)
        requires
            self.wf(),
        ensures
            match r {
                Some(j) => {
                    &&& (j as int) < self@.rooms.len()
                    &&& self@.rooms[j as int].name == name@
                    &&& self@.has_room(name@)
                    &&& self@.room_idx(name@) == j as int
                },
                None => !self@.has_room(name@),
            },
    {
        let mut i: usize = 0;
        while i < self.rooms.len()
            invariant
                self.wf(),
                i <= self.rooms@.len(),
                forall|k: int| 0 <= k < i ==> self@.rooms[k].name != name@,
            decreases self.rooms@.len() - i,
        {
            if str_eq(self.rooms[i].name.as_str(), name) {
                proof {
                    assert(self@.rooms[i as int].name == name@);
                    let c = self@.room_idx(name@);
                    assert(0 <= c < self@.rooms.len() && self@.rooms[c].name == name@);
                    if c != i as int {
                        assert(self@.rooms[c].name != self@.rooms[i as int].name);
                        assert(false);
                    }
                }
                return Some(i);
            }
            i = i + 1;
        }
        proof {
            assert(!self@.has_room(name@)) by {
                if self@.has_room(name@) {
                    let j = choose|j: int|
                        0 <= j < self@.rooms.len() && self@.rooms[j].name == name@;
                    assert(self@.rooms[j].name != name@);
                }
            }
        }
        None
    }

    /// Computes the fan-out of one text line to the room called `room`,
    /// excluding the identity `skip_id` and every member without a live
    /// session record.  An unknown room name yields no deliveries.
    fn send_message(&self, room: &str, message: &str, skip_id: usize) -> (r: Vec<Delivery>)
        requires
            self.wf(),
        ensures
            dv(r@) == to_all(self@.recipients(room@, skip_id), message@),
    {
        let mut out: Vec<Delivery> = Vec::new();
        match self.find_room(room) {
            None => {
                proof {
                    assert(self@.recipients(room@, skip_id) =~= Seq::<usize>::empty());
                    assert(dv(out@) =~= to_all(self@.recipients(room@, skip_id), message@));
                }
            },
            Some(j) => {
                let members = &self.rooms[j].members;
                proof {
                    assert(self@.members_of(room@) == members@);
                }
                let ghost ms = members@;
                let mut k: usize = 0;
                while k < members.len()
                    invariant
                        self.wf(),
                        k <= ms.len(),
                        members@ == ms,
                        dv(out@) == to_all(recip_seq(ms.take(k as int), self@.live, skip_id), message@),
                    decreases ms.len() - k,
                {
                    let x = members[k];
                    proof {
                        assert(ms.take(k as int + 1).drop_last() =~= ms.take(k as int));
                        assert(ms.take(k as int + 1).last() == x);
                    }
                    if x != skip_id && contains_id(&self.sessions, x) {
                        let d = Delivery { to: x, msg: Message(message.to_owned()) };
                        proof {
                            lemma_dv_push(out@, d);
                            lemma_to_all_push(
                                recip_seq(ms.take(k as int), self@.live, skip_id),
                                message@,
                                x,
                            );
                        }
                        out.push(d);
                    }
                    k = k + 1;
                }
                proof {
                    assert(ms.take(ms.len() as int) =~= ms);
                }
            },
        }
        out
    }

    /// One fan-out of `message` to each room of `affected` in turn,
    /// excluding nobody.
    fn fan_to_rooms(&self, affected: &Vec<String>, message: &str) -> (r: Vec<Delivery>)
        requires
            self.wf(),
        ensures
            dv(r@) == fanout(self@, names_of(affected@), message@, 0),
    {
        let ghost anames = names_of(affected@);
        let mut out: Vec<Delivery> = Vec::new();
        let mut k: usize = 0;
        while k < affected.len()
            invariant
                self.wf(),
                k <= affected@.len(),
                anames == names_of(affected@),
                dv(out@) == fanout(self@, anames.take(k as int), message@, 0),
            decreases affected@.len() - k,
        {
            let mut d = self.send_message(affected[k].as_str(), message, 0);
            proof {
                assert(anames.take(k as int + 1).drop_last() =~= anames.take(k as int));
                assert(anames.take(k as int + 1).last() == affected@[k as int]@);
                lemma_dv_add(out@, d@);
            }
            out.append(&mut d);
            k = k + 1;
        }
        proof {
            assert(anames.take(affected@.len() as int) =~= anames);
        }
        out
    }

    /// Delivers `msg.msg` to every member of `msg.room` except the sender
    /// `msg.id`.  A nonexistent room produces no deliveries and is not an
    /// error; the registry itself never changes.
    pub fn handle_client_message(&self, msg: &ClientMessage) -> (r: Vec<Delivery>)
        requires
            self.wf(),
        ensures
            dv(r@) == to_all(self@.recipients(msg.room@, msg.id), msg.msg@),
            !self@.has_room(msg.room@) ==> r@.len() == 0,
    {
        let r = self.send_message(msg.room.as_str(), msg.msg.as_str(), msg.id);
        proof {
            if !self@.has_room(msg.room@) {
                assert(self@.recipients(msg.room@, msg.id) =~= Seq::<usize>::empty());
                assert(dv(r@).len() == r@.len());
            }
        }
        r
    }

    /// A snapshot of the current room names, in creation order, empty
    /// rooms included.
    pub fn handle_list_rooms(&self, _msg: &ListRooms) -> (r: Vec<String>)
        ensures
            r@.len() == self@.rooms.len(),
            forall|i: int| 0 <= i < r@.len() ==> #[trigger] r@[i]@ == self@.rooms[i].name,
    {
        let mut out: Vec<String> = Vec::new();
        let mut i: usize = 0;
        while i < self.rooms.len()
            invariant
                i <= self.rooms@.len(),
                out@.len() == i,
                forall|k: int| 0 <= k < i ==> #[trigger] out@[k]@ == self@.rooms[k].name,
            decreases self.rooms@.len() - i,
        {
            out.push(self.rooms[i].name.clone());
            i = i + 1;
        }
        out
    }

    /// Registers a new connection: assigns the next fresh identity, adds
    /// it to the default room, counts the visitor, and fans out the two
    /// informational lines — "Someone joined", then the new visitor total
    /// — to the default room's existing and new members alike.
    pub fn handle_connect(&mut self, _msg: Connect) -> (r: (usize, Vec<Delivery>))
        requires
            old(self).wf(),
            old(self)@.next < usize::MAX as int,
        ensures
            final(self).wf(),
            r.0 as int == old(self)@.next,
            !old(self)@.is_live(r.0),
            final(self)@.live == old(self)@.live.push(r.0),
            final(self)@.next == old(self)@.next + 1,
            final(self)@.visitors == old(self)@.visitors + 1,
            final(self)@.rooms.len() == old(self)@.rooms.len(),
            forall|j: int|
                0 <= j < old(self)@.rooms.len() ==> #[trigger] final(self)@.rooms[j].name == old(
                    self,
                )@.rooms[j].name,
            forall|j: int|
                0 <= j < old(self)@.rooms.len() && j != old(self)@.room_idx("main"@)
                    ==> #[trigger] final(self)@.rooms[j].members == old(self)@.rooms[j].members,
            ({
                let j = old(self)@.room_idx("main"@);
                final(self)@.rooms[j].members == if old(self)@.rooms[j].members.contains(r.0) {
                    old(self)@.rooms[j].members
                } else {
                    old(self)@.rooms[j].members.push(r.0)
                }
            }),
            final(self)@.room_has("main"@, r.0),
            dv(r.1@) == to_all(final(self)@.recipients("main"@, 0), "Someone joined"@) + to_all(
                final(self)@.recipients("main"@, 0),
                visitors_text(old(self)@.visitors + 1),
            ),
    {
        let ghost m = old(self)@;
        let id = self.next_id;
        proof {
            assert(!m.live.contains(id)) by {
                if m.live.contains(id) {
                    let i = choose|i: int| 0 <= i < m.live.len() && m.live[i] == id;
                    assert(m.live[i] < m.next);
                }
            }
        }
        self.sessions.push(id);
        self.next_id = self.next_id + 1;
        self.visitor_count = self.visitor_count + 1;
        proof {
            assert(self@.live.no_duplicates()) by {
                assert(m.live.no_duplicates() && !m.live.contains(id));
                assert(self@.live =~= m.live.push(id));
                assert forall|i: int, j: int|
                    0 <= i < self@.live.len() && 0 <= j < self@.live.len() && i != j implies self@
                    .live[i] != self@.live[j] by {
                    if i < m.live.len() && j < m.live.len() {
                        assert(m.live[i] != m.live[j]);
                    } else if i < m.live.len() {
                        assert(m.live[i] < m.next);
                    } else if j < m.live.len() {
                        assert(m.live[j] < m.next);
                    }
                }
            }
            assert(self@.rooms =~= m.rooms);
            assert(self.wf());
        }
        let jopt = self.find_room("main");
        let j: usize = match jopt {
            Some(j) => j,
            None => {
                proof {
                    assert(false);
                }
                0
            },
        };
        let already = contains_id(&self.rooms[j].members, id);
        if !already {
            self.rooms[j].members.push(id);
        }
        proof {
            assert(self@.rooms.len() == m.rooms.len());
            assert forall|k: int| 0 <= k < self@.rooms.len() implies #[trigger] self@.rooms[k].name
                == m.rooms[k].name by {}
            assert(self@.rooms[j as int].members.no_duplicates()) by {
                if !already {
                    let ms = m.rooms[j as int].members;
                    let ns = self@.rooms[j as int].members;
                    assert(ns =~= ms.push(id));
                    assert forall|p: int, q: int|
                        0 <= p < ns.len() && 0 <= q < ns.len() && p != q implies ns[p] != ns[q] by {
                        if p < ms.len() && q < ms.len() {
                            assert(ms[p] != ms[q]);
                        } else if p < ms.len() {
                            assert(!ms.contains(id));
                            assert(ns[p] == ms[p]);
                        } else if q < ms.len() {
                            assert(!ms.contains(id));
                            assert(ns[q] == ms[q]);
                        }
                    }
                }
            }
            assert(self.wf()) by {
                let cur = self@;
                assert(cur.live == m.live.push(id));
                assert(cur.live.no_duplicates());
                assert forall|k: int|
                    0 <= k < cur.rooms.len() implies (#[trigger] cur.rooms[k].members).no_duplicates() by {
                    if k != j as int {
                        assert(cur.rooms[k].members == m.rooms[k].members);
                        assert(m.rooms[k].members.no_duplicates());
                    }
                }
                assert forall|k: int, l: int|
                    #![trigger cur.rooms[k].name, cur.rooms[l].name]
                    0 <= k < cur.rooms.len() && 0 <= l < cur.rooms.len() && k != l implies cur.rooms[k].name
                    != cur.rooms[l].name by {
                    assert(cur.rooms[k].name == m.rooms[k].name);
                    assert(cur.rooms[l].name == m.rooms[l].name);
                }
                assert(cur.has_room("main"@)) by {
                    assert(cur.rooms[j as int].name == "main"@);
                }
                assert forall|i: int| 0 <= i < cur.live.len() implies #[trigger] cur.live[i]
                    < cur.next by {
                    if i < m.live.len() {
                        assert(m.live[i] < m.next);
                    }
                }
            }
            lemma_room_idx_unique(self@, "main"@, j as int);
            assert(self@.room_has("main"@, id));
        }
        let mut out = self.send_message("main", "Someone joined", 0);
        let msg_num = usize_to_string(self.visitor_count);
        let mut msgtext = "Total visitors ".to_owned();
        msgtext.append(msg_num.as_str());
        let mut out2 = self.send_message("main", msgtext.as_str(), 0);
        proof {
            assert(self.visitor_count as int == m.visitors + 1);
            lemma_dv_add(out@, out2@);
        }
        out.append(&mut out2);
        (id, out)
    }

    /// Removes `id` from every room and reports, in room order, the names
    /// of the rooms it was a member of.
    fn remove_member_everywhere(&mut self, id: usize) -> (affected: Vec<String>)
        requires
            old(self).wf(),
        ensures
            final(self).wf(),
            final(self)@ == old(self)@.without_member(id),
            final(self)@.live == old(self)@.live,
            final(self)@.next == old(self)@.next,
            final(self)@.visitors == old(self)@.visitors,
            final(self)@.rooms.len() == old(self)@.rooms.len(),
            forall|j: int|
                0 <= j < old(self)@.rooms.len() ==> #[trigger] final(self)@.rooms[j].name == old(
                    self,
                )@.rooms[j].name,
            forall|j: int|
                0 <= j < old(self)@.rooms.len() ==> #[trigger] final(self)@.rooms[j].members
                    == seq_without(old(self)@.rooms[j].members, id),
            names_of(affected@) == rooms_containing(old(self)@.rooms, id),
    {
        let ghost m = old(self)@;
        let mut affected: Vec<String> = Vec::new();
        proof {
            assert(names_of(affected@) =~= rooms_containing(m.rooms.take(0), id));
        }
        let mut j: usize = 0;
        while j < self.rooms.len()
            invariant
                j <= self.rooms@.len(),
                self@.live == m.live,
                self@.next == m.next,
                self@.visitors == m.visitors,
                self@.rooms.len() == m.rooms.len(),
                forall|k: int|
                    0 <= k < m.rooms.len() ==> #[trigger] self@.rooms[k].name == m.rooms[k].name,
                forall|k: int|
                    0 <= k < j ==> #[trigger] self@.rooms[k].members == seq_without(
                        m.rooms[k].members,
                        id,
                    ),
                forall|k: int|
                    j <= k < m.rooms.len() ==> #[trigger] self@.rooms[k].members
                        == m.rooms[k].members,
                names_of(affected@) == rooms_containing(m.rooms.take(j as int), id),
                m.wf(),
            decreases self.rooms@.len() - j,
        {
            let ghost pre = self@;
            proof {
                assert(pre.rooms[j as int].members == self.rooms@[j as int].members@);
                assert(pre.rooms[j as int].name == self.rooms@[j as int].name@);
                assert(pre.rooms[j as int].members == m.rooms[j as int].members);
                assert(m.rooms.take(j as int + 1).drop_last() =~= m.rooms.take(j as int));
                assert(m.rooms.take(j as int + 1).last() == m.rooms[j as int]);
            }
            let (kept, was) = filtered(&self.rooms[j].members, id);
            let ghost aprev = affected@;
            if was {
                affected.push(self.rooms[j].name.clone());
                proof {
                    assert(names_of(affected@) =~= names_of(aprev).push(m.rooms[j as int].name));
                }
            }
            proof {
                assert(names_of(affected@) == rooms_containing(m.rooms.take(j as int + 1), id));
            }
            let name_keep = self.rooms[j].name.clone();
            let newroom = Room { name: name_keep, members: kept };
            self.rooms[j] = newroom;
            proof {
                lemma_seq_without_distinct(m.rooms[j as int].members, id);
                assert forall|k: int|
                    0 <= k < m.rooms.len() implies #[trigger] self@.rooms[k].name
                    == m.rooms[k].name by {
                    assert(pre.rooms[k].name == m.rooms[k].name);
                    if k != j as int {
                        assert(self@.rooms[k] == pre.rooms[k]);
                    } else {
                        assert(self@.rooms[k].name == name_keep@);
                    }
                }
                assert forall|k: int|
                    0 <= k < j as int + 1 implies #[trigger] self@.rooms[k].members == seq_without(
                    m.rooms[k].members,
                    id,
                ) by {
                    if k != j as int {
                        assert(pre.rooms[k].members == seq_without(m.rooms[k].members, id));
                        assert(self@.rooms[k] == pre.rooms[k]);
                    } else {
                        assert(self@.rooms[k].members == kept@);
                    }
                }
                assert forall|k: int|
                    j as int + 1 <= k < m.rooms.len() implies #[trigger] self@.rooms[k].members
                    == m.rooms[k].members by {
                    assert(pre.rooms[k].members == m.rooms[k].members);
                    assert(self@.rooms[k] == pre.rooms[k]);
                }
            }
            j = j + 1;
        }
        proof {
            assert(m.rooms.take(m.rooms.len() as int) =~= m.rooms);
            assert forall|k: int|
                0 <= k < m.rooms.len() implies #[trigger] self@.rooms[k] == m.without_member(
                id,
            ).rooms[k] by {
                assert(self@.rooms[k] =~= m.without_member(id).rooms[k]);
            }
            assert(self@.rooms =~= m.without_member(id).rooms);
            assert(self@ =~= m.without_member(id));
            assert(self.wf()) by {
                assert forall|k: int|
                    0 <= k < self@.rooms.len() implies (#[trigger] self@.rooms[k].members).no_duplicates() by {
                    assert(self@.rooms[k].members == seq_without(m.rooms[k].members, id));
                    lemma_seq_without_distinct(m.rooms[k].members, id);
                }
                assert forall|k: int, l: int|
                    #![trigger self@.rooms[k].name, self@.rooms[l].name]
                    0 <= k < self@.rooms.len() && 0 <= l < self@.rooms.len() && k != l implies self@
                    .rooms[k].name != self@.rooms[l].name by {
                    assert(self@.rooms[k].name == m.rooms[k].name);
                    assert(self@.rooms[l].name == m.rooms[l].name);
                }
                assert(self@.has_room("main"@)) by {
                    let c = m.room_idx("main"@);
                    assert(0 <= c < m.rooms.len() && m.rooms[c].name == "main"@);
                    assert(self@.rooms[c].name == "main"@);
                }
            }
        }
        affected
    }

    /// Removes the session record of `msg.id`, removes the identity from
    /// every room, and fans a departure notice out to each room it was
    /// removed from.  Unregistering an identity with no live session
    /// record changes nothing and is not an error.
    pub fn handle_disconnect(&mut self, msg: Disconnect) -> (r: Vec<Delivery>)
        requires
            old(self).wf(),
        ensures
            final(self).wf(),
            !old(self)@.is_live(msg.id) ==> *final(self) == *old(self) && r@ == Seq::<
                Delivery,
            >::empty(),
            old(self)@.is_live(msg.id) ==> {
                &&& final(self)@.live == seq_without(old(self)@.live, msg.id)
                &&& final(self)@.next == old(self)@.next
                &&& final(self)@.visitors == old(self)@.visitors
                &&& final(self)@.rooms.len() == old(self)@.rooms.len()
                &&& forall|j: int|
                    0 <= j < old(self)@.rooms.len() ==> #[trigger] final(self)@.rooms[j].name
                        == old(self)@.rooms[j].name
                &&& forall|j: int|
                    0 <= j < old(self)@.rooms.len() ==> #[trigger] final(self)@.rooms[j].members
                        == seq_without(old(self)@.rooms[j].members, msg.id)
                &&& dv(r@) == fanout(
                    final(self)@,
                    rooms_containing(old(self)@.rooms, msg.id),
                    "Someone dissconnected"@,
                    0,
                )
            },
    {
        let ghost m = old(self)@;
        if !contains_id(&self.sessions, msg.id) {
            let r = Vec::new();
            proof {
                assert(r@ =~= Seq::<Delivery>::empty());
            }
            return r;
        }
        let (kept, _) = filtered(&self.sessions, msg.id);
        self.sessions = kept;
        proof {
            lemma_seq_without_distinct(m.live, msg.id);
            assert forall|i: int| 0 <= i < self@.live.len() implies #[trigger] self@.live[i]
                < self@.next by {
                lemma_seq_without_contains(m.live, msg.id, self@.live[i]);
                assert(self@.live.contains(self@.live[i]));
                let k = choose|k: int| 0 <= k < m.live.len() && m.live[k] == self@.live[i];
                assert(m.live[k] < m.next);
            }
            assert(self@.rooms == m.rooms);
            assert(self@.has_room("main"@)) by {
                let c = m.room_idx("main"@);
                assert(0 <= c < m.rooms.len() && m.rooms[c].name == "main"@);
                assert(self@.rooms[c].name == "main"@);
            }
            assert(self.wf());
        }
        let affected = self.remove_member_everywhere(msg.id);
        let out = self.fan_to_rooms(&affected, "Someone dissconnected");
        out
    }

    /// Moves `msg.id` into the room called `msg.name`: the identity
    /// leaves every room it belonged to (a departure notice goes to each
    /// such room), the target room is created if absent, and an arrival
    /// notice goes to the target room's other members — the newcomer is
    /// excluded as sender and never sees its own join announced.
    pub fn handle_join(&mut self, msg: Join) -> (r: Vec<Delivery>)
        requires
            old(self).wf(),
        ensures
            final(self).wf(),
            final(self)@.live == old(self)@.live,
            final(self)@.next == old(self)@.next,
            final(self)@.visitors == old(self)@.visitors,
            old(self)@.has_room(msg.name@) ==> final(self)@.rooms.len() == old(self)@.rooms.len(),
            !old(self)@.has_room(msg.name@) ==> final(self)@.rooms.len() == old(self)@.rooms.len()
                + 1 && final(self)@.rooms.last().name == msg.name@,
            forall|j: int|
                0 <= j < old(self)@.rooms.len() ==> #[trigger] final(self)@.rooms[j].name == old(
                    self,
                )@.rooms[j].name,
            forall|j: int|
                0 <= j < old(self)@.rooms.len() ==> #[trigger] final(self)@.rooms[j].members == (
                if old(self)@.rooms[j].name == msg.name@ {
                    seq_without(old(self)@.rooms[j].members, msg.id).push(msg.id)
                } else {
                    seq_without(old(self)@.rooms[j].members, msg.id)
                }),
            !old(self)@.has_room(msg.name@) ==> final(self)@.rooms.last().members == seq![msg.id],
            final(self)@.room_has(msg.name@, msg.id),
            forall|other: Seq<char>|
                other != msg.name@ ==> !#[trigger] final(self)@.room_has(other, msg.id),
            dv(r@) == fanout(
                old(self)@.without_member(msg.id),
                rooms_containing(old(self)@.rooms, msg.id),
                "Someone dissconneted"@,
                0,
            ) + to_all(final(self)@.recipients(msg.name@, msg.id), "Someone connected"@),
    {
        let ghost m = old(self)@;
        let affected = self.remove_member_everywhere(msg.id);
        let mut out = self.fan_to_rooms(&affected, "Someone dissconneted");
        let ghost mid = self@;
        let jopt = self.find_room(msg.name.as_str());
        let j: usize = match jopt {
            Some(j) => j,
            None => {
                let newroom = Room { name: msg.name.clone(), members: Vec::new() };
                self.rooms.push(newroom);
                proof {
                    assert(self@.rooms =~= mid.rooms.push(
                        RoomModel { name: msg.name@, members: Seq::empty() },
                    ));
                }
                self.rooms.len() - 1
            },
        };
        proof {
            assert(self@.rooms[j as int].name == msg.name@);
            assert(!self@.rooms[j as int].members.contains(msg.id)) by {
                if jopt is Some {
                    assert(self@.rooms[j as int].members == seq_without(
                        m.rooms[j as int].members,
                        msg.id,
                    ));
                    lemma_seq_without_contains(m.rooms[j as int].members, msg.id, msg.id);
                }
            }
        }
        let ghost pre_push = self@;
        self.rooms[j].members.push(msg.id);
        proof {
            // frame of the insertion
            assert(self@.rooms.len() == pre_push.rooms.len());
            assert forall|k: int|
                0 <= k < pre_push.rooms.len() && k != j as int implies #[trigger] self@.rooms[k]
                == pre_push.rooms[k] by {}
            assert(self@.rooms[j as int].name == pre_push.rooms[j as int].name);
            assert(self@.rooms[j as int].members =~= pre_push.rooms[j as int].members.push(msg.id));
            // how the states relate across the room lookup
            assert(m.has_room(msg.name@) <==> mid.has_room(msg.name@)) by {
                if m.has_room(msg.name@) {
                    let c = m.room_idx(msg.name@);
                    assert(0 <= c < m.rooms.len() && m.rooms[c].name == msg.name@);
                    assert(mid.rooms[c].name == msg.name@);
                }
                if mid.has_room(msg.name@) {
                    let c = choose|c: int|
                        0 <= c < mid.rooms.len() && #[trigger] mid.rooms[c].name == msg.name@;
                    assert(m.rooms[c].name == msg.name@);
                }
            }
            // well-formedness after the insertion
            assert(self.wf()) by {
                let cur = self@;
                assert forall|k: int|
                    0 <= k < cur.rooms.len() implies (#[trigger] cur.rooms[k].members).no_duplicates() by {
                    if k == j as int {
                        let ms = pre_push.rooms[j as int].members;
                        let ns = cur.rooms[j as int].members;
                        assert(ns =~= ms.push(msg.id));
                        assert(ms.no_duplicates());
                        assert(!ms.contains(msg.id));
                        assert forall|p: int, q: int|
                            0 <= p < ns.len() && 0 <= q < ns.len() && p != q implies ns[p]
                            != ns[q] by {
                            if p < ms.len() && q < ms.len() {
                                assert(ms[p] != ms[q]);
                            } else if p < ms.len() {
                                assert(ns[p] == ms[p]);
                            } else if q < ms.len() {
                                assert(ns[q] == ms[q]);
                            }
                        }
                    } else {
                        assert(cur.rooms[k].members == pre_push.rooms[k].members);
                        assert(pre_push.rooms[k].members.no_duplicates());
                    }
                }
                assert forall|k: int, l: int|
                    #![trigger cur.rooms[k].name, cur.rooms[l].name]
                    0 <= k < cur.rooms.len() && 0 <= l < cur.rooms.len() && k != l implies cur.rooms[k].name
                    != cur.rooms[l].name by {
                    assert(cur.rooms[k].name == pre_push.rooms[k].name);
                    assert(cur.rooms[l].name == pre_push.rooms[l].name);
                    if jopt is None {
                        if k == cur.rooms.len() - 1 {
                            assert(l < mid.rooms.len());
                            assert(!mid.has_room(msg.name@));
                        } else if l == cur.rooms.len() - 1 {
                            assert(k < mid.rooms.len());
                            assert(!mid.has_room(msg.name@));
                        } else {
                            assert(mid.rooms[k].name != mid.rooms[l].name);
                        }
                    } else {
                        assert(mid.rooms[k].name != mid.rooms[l].name);
                    }
                }
                assert(cur.has_room("main"@)) by {
                    let c = mid.room_idx("main"@);
                    assert(0 <= c < mid.rooms.len() && mid.rooms[c].name == "main"@);
                    assert(cur.rooms[c].name == "main"@);
                }
            }
            lemma_room_idx_unique(self@, msg.name@, j as int);
            assert(self@.room_has(msg.name@, msg.id));
            // the membership clauses of the contract
            assert forall|k: int|
                0 <= k < m.rooms.len() implies #[trigger] self@.rooms[k].name
                == m.rooms[k].name by {
                assert(mid.rooms[k].name == m.rooms[k].name);
                assert(pre_push.rooms[k].name == mid.rooms[k].name);
                if k != j as int {
                    assert(self@.rooms[k] == pre_push.rooms[k]);
                }
            }
            assert forall|k: int|
                0 <= k < m.rooms.len() implies #[trigger] self@.rooms[k].members == (if m.rooms[k].name
                == msg.name@ {
                seq_without(m.rooms[k].members, msg.id).push(msg.id)
            } else {
                seq_without(m.rooms[k].members, msg.id)
            }) by {
                assert(mid.rooms[k].members == seq_without(m.rooms[k].members, msg.id));
                assert(pre_push.rooms[k].members == mid.rooms[k].members);
                if k == j as int {
                    assert(m.rooms[k].name == msg.name@) by {
                        assert(mid.rooms[j as int].name == msg.name@);
                    }
                } else {
                    assert(self@.rooms[k] == pre_push.rooms[k]);
                    assert(m.rooms[k].name != msg.name@) by {
                        if m.rooms[k].name == msg.name@ {
                            if jopt is Some {
                                assert(mid.rooms[j as int].name == msg.name@);
                                assert(m.rooms[j as int].name == msg.name@);
                                assert(m.rooms[k].name != m.rooms[j as int].name);
                            } else {
                                assert(mid.rooms[k].name == msg.name@);
                                assert(mid.has_room(msg.name@));
                            }
                        }
                    }
                }
            }
            // the target room is the only room holding the identity
            assert forall|other: Seq<char>|
                other != msg.name@ implies !#[trigger] self@.room_has(other, msg.id) by {
                if self@.has_room(other) {
                    let c = self@.room_idx(other);
                    assert(0 <= c < self@.rooms.len() && self@.rooms[c].name == other);
                    assert(c != j as int);
                    lemma_room_idx_unique(self@, other, c);
                    if c < m.rooms.len() {
                        assert(self@.rooms[c].members == seq_without(m.rooms[c].members, msg.id));
                        lemma_seq_without_contains(m.rooms[c].members, msg.id, msg.id);
                    } else {
                        assert(c == pre_push.rooms.len() - 1 && jopt is None);
                        assert(self@.rooms[c].name == msg.name@);
                    }
                }
            }
            if jopt is None {
                assert(self@.rooms.last().name == msg.name@);
                assert(self@.rooms.last().members =~= seq![msg.id]);
            }
        }
        let mut arr = self.send_message(msg.name.as_str(), "Someone connected", msg.id);
        proof {
            lemma_dv_add(out@, arr@);
        }
        out.append(&mut arr);
        out
    }
}

} // verus!
