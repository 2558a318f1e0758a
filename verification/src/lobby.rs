//! Registered usernames, connected players and the match requests between them.
use vstd::prelude::*;

use std::collections::HashMap;

use crate::trusted::{is_random_uuid, lowercase, new_uuid_v4, parse_uuid, to_lowercase, uuid_parse};

verus! {

broadcast use vstd::std_specs::hash::group_hash_axioms;

/// The key under which a username is registered: its lowercase form, so that
/// names that differ only in case are the same name.
pub open spec fn name_key(username: Seq<char>) -> Seq<char> {
    lowercase(username)
}

/// The value `key` maps to, if any.
pub open spec fn lookup<K, V>(m: Map<K, V>, key: K) -> Option<V> {
    if m.contains_key(key) {
        Some(m[key])
    } else {
        None
    }
}

/// Whether some registered name has the identifier `id`.
pub open spec fn id_in_use(usernames: Map<Seq<char>, u128>, id: u128) -> bool {
    exists|k: Seq<char>| #[trigger] usernames.contains_key(k) && usernames[k] == id
}

/// The bits of an identifier that a candidate keeps from the identifier it
/// is made from: all but bits 0 to 61, 64 and 65.
pub open spec fn kept_bits() -> u128 {
    0xFFFF_FFFF_FFFF_FFFC_C000_0000_0000_0000u128
}

/// The `k`-th identifier made from `base`: `base` with bits 0 to 61 replaced
/// by the low 62 bits of `k` and bits 64 and 65 by its next two bits.
pub open spec fn candidate_id(base: u128, k: u128) -> u128 {
    (base & kept_bits()) | (k & 0x3FFF_FFFF_FFFF_FFFFu128) | (((k >> 62u128) & 3u128) << 64u128)
}

/// The number `k` that a candidate identifier was made with.
pub open spec fn candidate_index(id: u128) -> u128 {
    (id & 0x3FFF_FFFF_FFFF_FFFFu128) | (((id >> 64u128) & 3u128) << 62u128)
}

/// A candidate identifier tells the number it was made with, and keeps the
/// version and variant of the identifier it is made from.
proof fn candidate_facts(base: u128, k: u128)
    requires
        k < 0x1_0000_0000_0000_0000u128,
    ensures
        candidate_index(candidate_id(base, k)) == k,
        is_random_uuid(base) ==> is_random_uuid(candidate_id(base, k)),
{
    assert(((((base & 0xFFFF_FFFF_FFFF_FFFC_C000_0000_0000_0000u128) | (k & 0x3FFF_FFFF_FFFF_FFFFu128)
        | (((k >> 62u128) & 3u128) << 64u128)) & 0x3FFF_FFFF_FFFF_FFFFu128) | (((((base
        & 0xFFFF_FFFF_FFFF_FFFC_C000_0000_0000_0000u128) | (k & 0x3FFF_FFFF_FFFF_FFFFu128) | (((k
        >> 62u128) & 3u128) << 64u128)) >> 64u128) & 3u128) << 62u128)) == k) by (bit_vector)
        requires
            k < 0x1_0000_0000_0000_0000u128,
    ;
    assert((((base & 0xFFFF_FFFF_FFFF_FFFC_C000_0000_0000_0000u128) | (k & 0x3FFF_FFFF_FFFF_FFFFu128)
        | (((k >> 62u128) & 3u128) << 64u128)) >> 76u128) & 0xfu128 == (base >> 76u128) & 0xfu128)
        by (bit_vector);
    assert((((base & 0xFFFF_FFFF_FFFF_FFFC_C000_0000_0000_0000u128) | (k & 0x3FFF_FFFF_FFFF_FFFFu128)
        | (((k >> 62u128) & 3u128) << 64u128)) >> 62u128) & 3u128 == (base >> 62u128) & 3u128)
        by (bit_vector);
}

/// Of the first `ids.len() + 1` candidates made from any identifier, one is
/// not in `ids`.
proof fn some_candidate_unused(ids: Seq<u128>, base: u128)
    requires
        ids.len() < 0x1_0000_0000_0000_0000u128,
    ensures
        exists|k: u128| k <= ids.len() && !ids.contains(#[trigger] candidate_id(base, k)),
{
    if forall|k: u128| k <= ids.len() ==> ids.contains(#[trigger] candidate_id(base, k)) {
        all_candidates_used_is_impossible(ids, base);
        vstd::set_lib::lemma_int_range(0, ids.len() as int + 1);
    }
}

/// The first `ids.len() + 1` candidates made from an identifier cannot all
/// be in `ids`: their numbers are distinct, and `ids` has too few elements.
proof fn all_candidates_used_is_impossible(ids: Seq<u128>, base: u128)
    requires
        ids.len() < 0x1_0000_0000_0000_0000u128,
        forall|k: u128| k <= ids.len() ==> ids.contains(#[trigger] candidate_id(base, k)),
    ensures
        vstd::set_lib::set_int_range(0, ids.len() as int + 1).len() <= ids.len(),
{
    let n = ids.len() as int;
    let idx = ids.map_values(|x: u128| candidate_index(x) as int);
    let s = idx.to_set();
    idx.lemma_cardinality_of_set();
    vstd::set_lib::lemma_int_range(0, n + 1);
    assert forall|i: int| vstd::set_lib::set_int_range(0, n + 1).contains(i) implies s.contains(
        i,
    ) by {
        let k = i as u128;
        assert(ids.contains(candidate_id(base, k)));
        let j = choose|j: int| 0 <= j < ids.len() && ids[j] == candidate_id(base, k);
        candidate_facts(base, k);
        assert(idx[j] == i);
        assert(idx.contains(i));
    }
    assert(vstd::set_lib::set_int_range(0, n + 1).subset_of(s));
    vstd::set_lib::lemma_len_subset(vstd::set_lib::set_int_range(0, n + 1), s);
}

/// Whether no two registered names share an identifier.
pub open spec fn ids_distinct(usernames: Map<Seq<char>, u128>) -> bool {
    forall|a: Seq<char>, b: Seq<char>|
        #[trigger] usernames.contains_key(a) && #[trigger] usernames.contains_key(b) && a != b
            ==> usernames[a] != usernames[b]
}

/// A registered username key and the identifier it was given.
pub struct Registration {
    pub name_key: String,
    pub id: u128,
}

/// The registered usernames, each under its key, with the identifier that
/// registration gave it.
pub struct UsernameRegistry {
    entries: Vec<Registration>,
    names: Ghost<Map<Seq<char>, u128>>,
}

impl View for UsernameRegistry {
    type V = Map<Seq<char>, u128>;

    closed spec fn view(&self) -> Map<Seq<char>, u128> {
        self.names@
    }
}

impl UsernameRegistry {
    /// The entries hold exactly the keys of the map, once each, with their
    /// identifiers.
    pub closed spec fn wf(&self) -> bool {
        &&& forall|i: int|
            0 <= i < self.entries@.len() ==> #[trigger] self.names@.contains_key(
                self.entries@[i].name_key@,
            ) && self.names@[self.entries@[i].name_key@] == self.entries@[i].id
        &&& forall|k: Seq<char>|
            #[trigger] self.names@.contains_key(k) ==> exists|i: int|
                0 <= i < self.entries@.len() && #[trigger] self.entries@[i].name_key@ == k
        &&& forall|i: int, j: int|
            0 <= i < j < self.entries@.len() ==> #[trigger] self.entries@[i].name_key@
                != #[trigger] self.entries@[j].name_key@
    }

    /// A registry with no names.
    pub fn new() -> (registry: Self)
        ensures
            registry.wf(),
            registry@ == Map::<Seq<char>, u128>::empty(),
    {
        UsernameRegistry { entries: Vec::new(), names: Ghost(Map::empty()) }
    }

    /// The position of the entry for `key`, if there is one.
    fn position(&self, key: &String) -> (found: Option<usize>)
        requires
            self.wf(),
        ensures
            match found {
                Some(i) => i < self.entries@.len() && self.entries@[i as int].name_key@ == key@,
                None => !self@.contains_key(key@),
            },
    {
        let mut i: usize = 0;
        while i < self.entries.len()
            invariant
                self.wf(),
                0 <= i <= self.entries@.len(),
                forall|j: int| 0 <= j < i ==> #[trigger] self.entries@[j].name_key@ != key@,
            decreases self.entries@.len() - i,
        {
            if self.entries[i].name_key == *key {
                return Some(i);
            }
            i = i + 1;
        }
        proof {
            if self@.contains_key(key@) {
                let j = choose|j: int|
                    0 <= j < self.entries@.len() && #[trigger] self.entries@[j].name_key@ == key@;
                assert(self.entries@[j].name_key@ != key@);
            }
        }
        None
    }

    /// The identifier registered under `key`, if any.
    pub fn get(&self, key: &String) -> (id: Option<u128>)
        requires
            self.wf(),
        ensures
            id == lookup(self@, key@),
    {
        match self.position(key) {
            Some(i) => {
                assert(self.names@.contains_key(self.entries@[i as int].name_key@));
                Some(self.entries[i].id)
            },
            None => None,
        }
    }

    /// Whether some registered name has the identifier `id`.
    pub fn has_id(&self, id: u128) -> (found: bool)
        requires
            self.wf(),
        ensures
            found == id_in_use(self@, id),
    {
        let mut i: usize = 0;
        while i < self.entries.len()
            invariant
                self.wf(),
                0 <= i <= self.entries@.len(),
                forall|j: int| 0 <= j < i ==> #[trigger] self.entries@[j].id != id,
            decreases self.entries@.len() - i,
        {
            if self.entries[i].id == id {
                assert(self.names@.contains_key(self.entries@[i as int].name_key@));
                return true;
            }
            i = i + 1;
        }
        proof {
            if id_in_use(self@, id) {
                let k = choose|k: Seq<char>| #[trigger] self@.contains_key(k) && self@[k] == id;
                let j = choose|j: int|
                    0 <= j < self.entries@.len() && #[trigger] self.entries@[j].name_key@ == k;
                assert(self.names@.contains_key(self.entries@[j].name_key@));
            }
        }
        false
    }

    /// An identifier that no registered name has, made from `base` by
    /// changing only bits that hold neither a version nor a variant.
    pub fn unused_id_like(&self, base: u128) -> (id: u128)
        requires
            self.wf(),
        ensures
            !id_in_use(self@, id),
            is_random_uuid(base) ==> is_random_uuid(id),
    {
        let n = self.entries.len();
        let ghost ids = self.entries@.map_values(|r: Registration| r.id);
        let mut k: u128 = 0;
        while k <= n as u128
            invariant
                self.wf(),
                n == self.entries@.len(),
                ids == self.entries@.map_values(|r: Registration| r.id),
                k <= n + 1,
                forall|j: u128| j < k ==> ids.contains(#[trigger] candidate_id(base, j)),
            decreases n + 1 - k,
        {
            let c = (base & 0xFFFF_FFFF_FFFF_FFFC_C000_0000_0000_0000u128) | (k
                & 0x3FFF_FFFF_FFFF_FFFFu128) | (((k >> 62u128) & 3u128) << 64u128);
            assert(c == candidate_id(base, k));
            proof {
                candidate_facts(base, k);
            }
            if !self.has_id(c) {
                return c;
            }
            proof {
                let key = choose|key: Seq<char>| #[trigger] self@.contains_key(key) && self@[key] == c;
                let j = choose|j: int|
                    0 <= j < self.entries@.len() && #[trigger] self.entries@[j].name_key@ == key;
                assert(self.names@[self.entries@[j].name_key@] == self.entries@[j].id);
                assert(ids[j] == c);
                assert forall|jj: u128| jj < k + 1 implies ids.contains(
                    #[trigger] candidate_id(base, jj),
                ) by {
                    if jj == k {
                        assert(ids[j] == candidate_id(base, jj));
                    }
                }
            }
            k = k + 1;
        }
        proof {
            some_candidate_unused(ids, base);
            vstd::set_lib::lemma_int_range(0, n + 1);
            let k = choose|k: u128| k <= ids.len() && !ids.contains(#[trigger] candidate_id(base, k));
            assert(ids.contains(candidate_id(base, k)));
        }
        base
    }

    /// Registers `id` under a key that is not registered yet.
    pub fn insert_new(&mut self, key: String, id: u128)
        requires
            old(self).wf(),
            !old(self)@.contains_key(key@),
        ensures
            final(self).wf(),
            final(self)@ == old(self)@.insert(key@, id),
    {
        let ghost k = key@;
        let ghost old_entries = self.entries@;
        self.entries.push(Registration { name_key: key, id });
        self.names = Ghost(self.names@.insert(k, id));
        proof {
            assert forall|i: int|
                0 <= i < self.entries@.len() implies #[trigger] self.names@.contains_key(
                self.entries@[i].name_key@,
            ) && self.names@[self.entries@[i].name_key@] == self.entries@[i].id by {
                if i < old_entries.len() {
                    assert(self.entries@[i] == old_entries[i]);
                    assert(old(self).names@.contains_key(old_entries[i].name_key@));
                }
            }
            assert forall|kk: Seq<char>| #[trigger] self.names@.contains_key(kk) implies exists|
                i: int,
            | 0 <= i < self.entries@.len() && #[trigger] self.entries@[i].name_key@ == kk by {
                if kk == k {
                    assert(self.entries@[old_entries.len() as int].name_key@ == kk);
                } else {
                    assert(old(self).names@.contains_key(kk));
                    let i = choose|i: int|
                        0 <= i < old_entries.len() && #[trigger] old_entries[i].name_key@ == kk;
                    assert(self.entries@[i] == old_entries[i]);
                }
            }
            assert forall|i: int, j: int|
                0 <= i < j < self.entries@.len() implies #[trigger] self.entries@[i].name_key@
                != #[trigger] self.entries@[j].name_key@ by {
                assert(self.entries@[i] == old_entries[i]);
                if j < old_entries.len() {
                    assert(self.entries@[j] == old_entries[j]);
                } else {
                    assert(old(self).names@.contains_key(old_entries[i].name_key@));
                }
            }
        }
    }

    /// Removes the registration under `key`, if there is one.
    pub fn remove(&mut self, key: &String)
        requires
            old(self).wf(),
        ensures
            final(self).wf(),
            final(self)@ == old(self)@.remove(key@),
    {
        match self.position(key) {
            None => {
                assert(self.names@.remove(key@) =~= self.names@);
            },
            Some(p) => {
                let ghost old_entries = self.entries@;
                self.entries.remove(p);
                self.names = Ghost(self.names@.remove(key@));
                proof {
                    assert forall|i: int|
                        0 <= i < self.entries@.len() implies #[trigger] self.names@.contains_key(
                        self.entries@[i].name_key@,
                    ) && self.names@[self.entries@[i].name_key@] == self.entries@[i].id by {
                        let oi = if i < p {
                            i
                        } else {
                            i + 1
                        };
                        assert(self.entries@[i] == old_entries[oi]);
                        assert(old(self).names@.contains_key(old_entries[oi].name_key@));
                        assert(old_entries[oi].name_key@ != old_entries[p as int].name_key@);
                    }
                    assert forall|kk: Seq<char>| #[trigger] self.names@.contains_key(kk) implies exists|
                        i: int,
                    | 0 <= i < self.entries@.len() && #[trigger] self.entries@[i].name_key@ == kk by {
                        assert(old(self).names@.contains_key(kk));
                        let oi = choose|oi: int|
                            0 <= oi < old_entries.len() && #[trigger] old_entries[oi].name_key@ == kk;
                        assert(oi != p);
                        let i = if oi < p {
                            oi
                        } else {
                            oi - 1
                        };
                        assert(self.entries@[i] == old_entries[oi]);
                    }
                    assert forall|i: int, j: int|
                        0 <= i < j < self.entries@.len() implies #[trigger] self.entries@[i].name_key@
                        != #[trigger] self.entries@[j].name_key@ by {
                        let oi = if i < p {
                            i
                        } else {
                            i + 1
                        };
                        let oj = if j < p {
                            j
                        } else {
                            j + 1
                        };
                        assert(self.entries@[i] == old_entries[oi]);
                        assert(self.entries@[j] == old_entries[oj]);
                    }
                }
            },
        }
    }
}

/// What the library knows of a connected player: the name it connected
/// with and the players it has challenged and that have not answered yet.
pub struct ClientRecord {
    pub name: String,
    pub active_requests: Vec<u128>,
}

/// The abstract view of a connected player.
pub struct ClientView {
    pub name: Seq<char>,
    pub requests: Seq<u128>,
}

impl View for ClientRecord {
    type V = ClientView;

    open spec fn view(&self) -> ClientView {
        ClientView { name: self.name@, requests: self.active_requests@ }
    }
}

/// No connected player has a pending request to itself.
pub open spec fn no_self_requests(clients: Map<u128, ClientView>) -> bool {
    forall|id: u128| #[trigger] clients.contains_key(id) ==> !clients[id].requests.contains(id)
}

/// `clients` with the pending requests of `id` cleared, if `id` is connected.
pub open spec fn clear_requests(clients: Map<u128, ClientView>, id: u128) -> Map<u128, ClientView> {
    if clients.contains_key(id) {
        clients.insert(id, ClientView { requests: Seq::empty(), ..clients[id] })
    } else {
        clients
    }
}

/// What became of a request to register a username.
#[derive(Clone, Copy, PartialEq, Eq, Structural, Debug)]
pub enum RegisterOutcome {
    /// The username is empty; nothing was registered.
    EmptyUsername,
    /// The username, up to case, is registered already.
    UsernameTaken,
    /// The username was registered with this identifier.
    Registered(u128),
}

/// What became of a challenge to the player registered under a username.
#[derive(Clone, Copy, PartialEq, Eq, Structural, Debug)]
pub enum MatchRequestOutcome {
    /// No player is registered under the username.
    UnknownUsername,
    /// The username is the challenger's own.
    SelfChallenge,
    /// The player registered under the username is not connected.
    NotConnected { target: u128 },
    /// The challenge goes to this player.
    Challenge { target: u128 },
}

/// What became of an answer accepting a challenge.
#[derive(Clone, Copy, PartialEq, Eq, Structural, Debug)]
pub enum AcceptOutcome {
    /// The text is not an identifier.
    InvalidId,
    /// No player with the identifier is connected.
    NotConnected,
    /// The player has no pending challenge to the one who accepted.
    NoPendingRequest,
    /// The challenge stands: a match between this player and the one who
    /// accepted starts.
    MatchStarts { requester: u128 },
}

/// Whether registering `username` in `before` with result `outcome` leaves
/// `after`: an empty name is refused, a name whose key is registered is
/// taken, and otherwise the key is registered with the identifier reported.
pub open spec fn registration_made(
    before: Map<Seq<char>, u128>,
    username: Seq<char>,
    outcome: RegisterOutcome,
    after: Map<Seq<char>, u128>,
) -> bool {
    match outcome {
        RegisterOutcome::EmptyUsername => username.len() == 0 && after == before,
        RegisterOutcome::UsernameTaken => username.len() > 0 && before.contains_key(
            name_key(username),
        ) && after == before,
        RegisterOutcome::Registered(id) => username.len() > 0 && !before.contains_key(
            name_key(username),
        ) && after == before.insert(name_key(username), id),
    }
}

/// What becomes of a challenge from `sender` to the player registered under
/// `target_username`.
pub open spec fn match_request_outcome(
    usernames: Map<Seq<char>, u128>,
    clients: Map<u128, ClientView>,
    sender: u128,
    target_username: Seq<char>,
) -> MatchRequestOutcome {
    match lookup(usernames, name_key(target_username)) {
        None => MatchRequestOutcome::UnknownUsername,
        Some(target) => if target == sender {
            MatchRequestOutcome::SelfChallenge
        } else if !clients.contains_key(target) {
            MatchRequestOutcome::NotConnected { target }
        } else {
            MatchRequestOutcome::Challenge { target }
        },
    }
}

/// The connected players after a challenge from `sender` ended in `outcome`:
/// a challenge that goes out is added to the sender's pending requests, if
/// the sender is connected.
pub open spec fn clients_after_request(
    clients: Map<u128, ClientView>,
    sender: u128,
    outcome: MatchRequestOutcome,
) -> Map<u128, ClientView> {
    match outcome {
        MatchRequestOutcome::Challenge { target } => if clients.contains_key(sender) {
            clients.insert(
                sender,
                ClientView { requests: clients[sender].requests.push(target), ..clients[sender] },
            )
        } else {
            clients
        },
        _ => clients,
    }
}

/// What becomes of `acceptor` accepting the challenge of the player whose
/// identifier is written as `requester_text`.
pub open spec fn accept_outcome(
    clients: Map<u128, ClientView>,
    acceptor: u128,
    requester_text: Seq<char>,
) -> AcceptOutcome {
    match uuid_parse(requester_text) {
        None => AcceptOutcome::InvalidId,
        Some(requester) => if !clients.contains_key(requester) {
            AcceptOutcome::NotConnected
        } else if !clients[requester].requests.contains(acceptor) {
            AcceptOutcome::NoPendingRequest
        } else {
            AcceptOutcome::MatchStarts { requester }
        },
    }
}

/// The connected players after an acceptance by `acceptor` ended in
/// `outcome`: when the match starts, both players' pending requests are cleared.
pub open spec fn clients_after_accept(
    clients: Map<u128, ClientView>,
    acceptor: u128,
    outcome: AcceptOutcome,
) -> Map<u128, ClientView> {
    match outcome {
        AcceptOutcome::MatchStarts { requester } => clear_requests(
            clear_requests(clients, acceptor),
            requester,
        ),
        _ => clients,
    }
}

/// The view of a table of connected players.
pub open spec fn client_views(table: Map<u128, ClientRecord>) -> Map<u128, ClientView> {
    table.map_values(|r: ClientRecord| r@)
}

/// The server's shared state: registered usernames and connected players.
pub struct Lobby {
    usernames: UsernameRegistry,
    clients: HashMap<u128, ClientRecord>,
}

impl Lobby {
    /// The registered usernames, by key, with their identifiers.
    pub closed spec fn usernames(&self) -> Map<Seq<char>, u128> {
        self.usernames@
    }

    /// The connected players, by identifier.
    pub closed spec fn clients(&self) -> Map<u128, ClientView> {
        client_views(self.clients@)
    }

    /// The lobby's invariant, which holds of every lobby: its registry is
    /// well formed and no connected player has challenged itself.
    #[verifier::type_invariant]
    spec fn wf(&self) -> bool {
        &&& self.usernames.wf()
        &&& no_self_requests(self.clients())
    }

    /// Takes the table of connected players out of the lobby, leaving it empty.
    fn take_clients(&mut self) -> (table: HashMap<u128, ClientRecord>)
        ensures
            table@ == old(self).clients@,
            final(self).usernames == old(self).usernames,
            no_self_requests(client_views(table@)),
    {
        proof {
            use_type_invariant(&*self);
        }
        let mut table = HashMap::new();
        std::mem::swap(&mut table, &mut self.clients);
        table
    }

    /// Takes the registry out of the lobby, leaving it empty.
    fn take_usernames(&mut self) -> (registry: UsernameRegistry)
        ensures
            registry == old(self).usernames,
            registry.wf(),
            final(self).clients == old(self).clients,
    {
        proof {
            use_type_invariant(&*self);
        }
        let mut registry = UsernameRegistry::new();
        std::mem::swap(&mut registry, &mut self.usernames);
        registry
    }

    /// A lobby with no registered names and no connected players.
    pub fn new() -> (lobby: Self)
        ensures
            lobby.usernames() == Map::<Seq<char>, u128>::empty(),
            lobby.clients() == Map::<u128, ClientView>::empty(),
    {
        let lobby = Lobby { usernames: UsernameRegistry::new(), clients: HashMap::new() };
        assert(lobby.clients() =~= Map::<u128, ClientView>::empty());
        lobby
    }

    /// Registers `username` under its lowercase form with a fresh random
    /// identifier, unless the name is empty or already registered up to case.
    /// Should the random identifier already belong to a registered name, an
    /// unused one is made from it instead, so that no two names share one.
    pub fn register_username(&mut self, username: &str) -> (outcome: RegisterOutcome)
        ensures
            final(self).clients() == old(self).clients(),
            registration_made(old(self).usernames(), username@, outcome, final(self).usernames()),
            outcome matches RegisterOutcome::Registered(id) ==> is_random_uuid(id) && !id_in_use(
                old(self).usernames(),
                id,
            ),
    {
        proof {
            use_type_invariant(&*self);
        }
        if username.is_empty() {
            return RegisterOutcome::EmptyUsername;
        }
        let key = to_lowercase(username);
        match self.usernames.get(&key) {
            Some(_) => RegisterOutcome::UsernameTaken,
            None => {
                let drawn = new_uuid_v4();
                let id = if self.usernames.has_id(drawn) {
                    self.usernames.unused_id_like(drawn)
                } else {
                    drawn
                };
                let mut registry = self.take_usernames();
                registry.insert_new(key, id);
                self.usernames = registry;
                RegisterOutcome::Registered(id)
            },
        }
    }

    /// The identifier registered under `username`, up to case, if any.
    pub fn registered_id(&self, username: &str) -> (id: Option<u128>)
        ensures
            id == lookup(self.usernames(), name_key(username@)),
    {
        proof {
            use_type_invariant(&*self);
        }
        let key = to_lowercase(username);
        self.usernames.get(&key)
    }

    /// Whether a player with identifier `id` is connected.
    pub fn is_connected(&self, id: u128) -> (connected: bool)
        ensures
            connected == self.clients().contains_key(id),
    {
        self.clients.contains_key(&id)
    }

    /// The players that `id` has challenged and that have not answered, if
    /// `id` is connected.
    pub fn pending_requests(&self, id: u128) -> (requests: Option<Vec<u128>>)
        ensures
            match requests {
                Some(r) => self.clients().contains_key(id) && r@ == self.clients()[id].requests,
                None => !self.clients().contains_key(id),
            },
    {
        match self.clients.get(&id) {
            Some(record) => Some(record.active_requests.clone()),
            None => None,
        }
    }

    /// Connects a player with identifier `id` under `name`, with no pending
    /// challenges; a player already connected with that identifier is replaced.
    pub fn add_client(&mut self, id: u128, name: String)
        ensures
            final(self).usernames() == old(self).usernames(),
            final(self).clients() == old(self).clients().insert(
                id,
                ClientView { name: name@, requests: Seq::empty() },
            ),
    {
        proof {
            use_type_invariant(&*self);
        }
        let ghost name_view = name@;
        let record = ClientRecord { name, active_requests: Vec::new() };
        let mut table = self.take_clients();
        table.insert(id, record);
        proof {
            let added = old(self).clients().insert(
                id,
                ClientView { name: name_view, requests: Seq::empty() },
            );
            assert(client_views(table@) =~= added);
            assert forall|other: u128| #[trigger]
                added.contains_key(other) implies !added[other].requests.contains(other) by {
                if other != id {
                    assert(old(self).clients().contains_key(other));
                }
            }
        }
        self.clients = table;
    }

    /// Handles a challenge from `sender` to the player registered under
    /// `target_username`. When the challenged player is someone else and is
    /// connected, the challenge goes to that player and is added to the
    /// sender's pending requests, if the sender is connected.
    pub fn request_match(&mut self, sender: u128, target_username: &str) -> (outcome:
        MatchRequestOutcome)
        ensures
            final(self).usernames() == old(self).usernames(),
            outcome == match_request_outcome(
                old(self).usernames(),
                old(self).clients(),
                sender,
                target_username@,
            ),
            final(self).clients() == clients_after_request(old(self).clients(), sender, outcome),
    {
        proof {
            use_type_invariant(&*self);
        }
        let key = to_lowercase(target_username);
        match self.usernames.get(&key) {
            None => MatchRequestOutcome::UnknownUsername,
            Some(target) => {
                if target == sender {
                    MatchRequestOutcome::SelfChallenge
                } else if !self.clients.contains_key(&target) {
                    MatchRequestOutcome::NotConnected { target }
                } else {
                    let mut table = self.take_clients();
                    match table.remove(&sender) {
                        Some(record) => {
                            let mut record = record;
                            let ghost before = record@;
                            record.active_requests.push(target);
                            table.insert(sender, record);
                            proof {
                                assert(old(self).clients@.contains_key(sender));
                                assert(client_views(table@) =~= old(self).clients().insert(
                                    sender,
                                    ClientView {
                                        requests: old(self).clients()[sender].requests.push(target),
                                        ..old(self).clients()[sender]
                                    },
                                ));
                                assert forall|id: u128| #[trigger]
                                    client_views(table@).contains_key(id) implies !client_views(table@)[id].requests.contains(
                                    id,
                                ) by {
                                    if id == sender {
                                        assert(!before.requests.contains(sender));
                                        if client_views(table@)[id].requests.contains(id) {
                                            let k = choose|k: int|
                                                0 <= k < client_views(table@)[id].requests.len()
                                                    && client_views(table@)[id].requests[k] == id;
                                            if k < before.requests.len() {
                                                assert(before.requests[k] == id);
                                            }
                                        }
                                    } else {
                                        assert(old(self).clients().contains_key(id));
                                    }
                                }
                            }
                        },
                        None => {
                            assert(table@ =~= old(self).clients@);
                        },
                    }
                    self.clients = table;
                    MatchRequestOutcome::Challenge { target }
                }
            },
        }
    }

    /// Clears the pending requests of `id`, if it is connected.
    fn clear_pending(&mut self, id: u128)
        ensures
            final(self).usernames() == old(self).usernames(),
            final(self).clients() == clear_requests(old(self).clients(), id),
    {
        proof {
            use_type_invariant(&*self);
        }
        let mut table = self.take_clients();
        match table.remove(&id) {
            Some(record) => {
                let mut record = record;
                record.active_requests = Vec::new();
                table.insert(id, record);
                proof {
                    assert(old(self).clients@.contains_key(id));
                    assert(client_views(table@) =~= clear_requests(old(self).clients(), id));
                    assert forall|other: u128| #[trigger]
                        client_views(table@).contains_key(other) implies !client_views(table@)[other].requests.contains(
                        other,
                    ) by {
                        if other != id {
                            assert(old(self).clients().contains_key(other));
                        }
                    }
                }
            },
            None => {
                assert(table@ =~= old(self).clients@);
            },
        }
        self.clients = table;
    }

    /// Handles `acceptor` accepting the challenge of the player whose
    /// identifier is `requester_text`. When that player is connected and has
    /// a pending challenge to `acceptor`, the pending requests of both are
    /// cleared and their match starts.
    pub fn accept_match(&mut self, acceptor: u128, requester_text: &str) -> (outcome: AcceptOutcome)
        ensures
            final(self).usernames() == old(self).usernames(),
            outcome == accept_outcome(old(self).clients(), acceptor, requester_text@),
            outcome matches AcceptOutcome::MatchStarts { requester } ==> {
                &&& requester != acceptor
                &&& final(self).clients().contains_key(requester)
                &&& final(self).clients()[requester].requests.len() == 0
                &&& old(self).clients().contains_key(acceptor)
                    ==> final(self).clients()[acceptor].requests.len() == 0
            },
            final(self).clients() == clients_after_accept(old(self).clients(), acceptor, outcome),
    {
        proof {
            use_type_invariant(&*self);
        }
        match parse_uuid(requester_text) {
            None => AcceptOutcome::InvalidId,
            Some(requester) => {
                let pending = match self.clients.get(&requester) {
                    None => {
                        return AcceptOutcome::NotConnected;
                    },
                    Some(record) => vec_contains(&record.active_requests, acceptor),
                };
                if !pending {
                    return AcceptOutcome::NoPendingRequest;
                }
                self.clear_pending(acceptor);
                self.clear_pending(requester);
                AcceptOutcome::MatchStarts { requester }
            },
        }
    }

    /// Disconnects the player `id` that connected under `username`: the
    /// username's registration ends and the player leaves the lobby.
    pub fn disconnect(&mut self, id: u128, username: &str)
        ensures
            final(self).usernames() == old(self).usernames().remove(name_key(username@)),
            final(self).clients() == old(self).clients().remove(id),
    {
        proof {
            use_type_invariant(&*self);
        }
        let key = to_lowercase(username);
        let mut registry = self.take_usernames();
        registry.remove(&key);
        self.usernames = registry;
        let mut table = self.take_clients();
        table.remove(&id);
        proof {
            assert(client_views(table@) =~= old(self).clients().remove(id));
            assert forall|other: u128| #[trigger]
                client_views(table@).contains_key(other) implies !client_views(
                table@,
            )[other].requests.contains(other) by {
                assert(old(self).clients().contains_key(other));
            }
        }
        self.clients = table;
    }
}

/// Whether `id` occurs in `ids`.
fn vec_contains(ids: &Vec<u128>, id: u128) -> (found: bool)
    ensures
        found == ids@.contains(id),
{
    let mut i: usize = 0;
    while i < ids.len()
        invariant
            0 <= i <= ids.len(),
            forall|j: int| 0 <= j < i ==> ids@[j] != id,
        decreases ids.len() - i,
    {
        if ids[i] == id {
            assert(ids@[i as int] == id);
            return true;
        }
        i = i + 1;
    }
    false
}

/// Once `register_username` has registered a name, looking the name up in
/// any case, as `registered_id` does, gives back the identifier it reported.
pub proof fn registered_name_resolves(
    before: Map<Seq<char>, u128>,
    username: Seq<char>,
    id: u128,
    after: Map<Seq<char>, u128>,
    looked_up: Seq<char>,
)
    requires
        registration_made(before, username, RegisterOutcome::Registered(id), after),
        name_key(looked_up) == name_key(username),
    ensures
        lookup(after, name_key(looked_up)) == Some(id),
{
}

/// Once `register_username` has registered a name, registering the name
/// again, in any case, is refused and changes nothing.
pub proof fn second_registration_refused(
    before: Map<Seq<char>, u128>,
    first: Seq<char>,
    id: u128,
    middle: Map<Seq<char>, u128>,
    again: Seq<char>,
    outcome: RegisterOutcome,
    after: Map<Seq<char>, u128>,
)
    requires
        registration_made(before, first, RegisterOutcome::Registered(id), middle),
        again.len() > 0,
        name_key(again) == name_key(first),
        registration_made(middle, again, outcome, after),
    ensures
        outcome == RegisterOutcome::UsernameTaken,
        after == middle,
{
}

/// After `disconnect`, the player's name can be registered again, in any
/// case, and its identifier is no longer connected.
pub proof fn disconnect_frees_username(
    usernames: Map<Seq<char>, u128>,
    clients: Map<u128, ClientView>,
    id: u128,
    username: Seq<char>,
    again: Seq<char>,
    outcome: RegisterOutcome,
    after: Map<Seq<char>, u128>,
)
    requires
        again.len() > 0,
        name_key(again) == name_key(username),
        registration_made(usernames.remove(name_key(username)), again, outcome, after),
    ensures
        outcome is Registered,
        !clients.remove(id).contains_key(id),
{
}

/// Accepting a challenge either starts a match or changes nothing. When a
/// match starts, both of its players are still connected and neither has a
/// pending challenge left, so neither can be drawn into a second match by
/// an older challenge; every other player is untouched.
pub proof fn match_start_clears_both(
    clients: Map<u128, ClientView>,
    acceptor: u128,
    requester_text: Seq<char>,
    other: u128,
)
    ensures
        ({
            let outcome = accept_outcome(clients, acceptor, requester_text);
            let after = clients_after_accept(clients, acceptor, outcome);
            match outcome {
                AcceptOutcome::MatchStarts { requester } => {
                    &&& after.dom() == clients.dom()
                    &&& after.contains_key(requester)
                    &&& after[requester].requests.len() == 0
                    &&& clients.contains_key(acceptor) ==> after[acceptor].requests.len() == 0
                    &&& other != acceptor && other != requester && clients.contains_key(other)
                        ==> after[other] == clients[other]
                },
                _ => after == clients,
            }
        }),
{
    let outcome = accept_outcome(clients, acceptor, requester_text);
    let after = clients_after_accept(clients, acceptor, outcome);
    if let AcceptOutcome::MatchStarts { requester } = outcome {
        assert(after.dom() =~= clients.dom());
    }
}

/// A registration that reports an identifier that no name had, as
/// `register_username` does, keeps the identifiers of all names distinct.
pub proof fn fresh_registration_keeps_ids_distinct(
    before: Map<Seq<char>, u128>,
    username: Seq<char>,
    outcome: RegisterOutcome,
    after: Map<Seq<char>, u128>,
)
    requires
        ids_distinct(before),
        registration_made(before, username, outcome, after),
        outcome matches RegisterOutcome::Registered(id) ==> !id_in_use(before, id),
    ensures
        ids_distinct(after),
{
    if let RegisterOutcome::Registered(id) = outcome {
        assert forall|a: Seq<char>, b: Seq<char>|
            #[trigger] after.contains_key(a) && #[trigger] after.contains_key(b) && a != b implies after[a]
            != after[b] by {
            if a == name_key(username) && before.contains_key(b) {
                assert(before.contains_key(b) && before[b] == after[b]);
            } else if b == name_key(username) && before.contains_key(a) {
                assert(before.contains_key(a) && before[a] == after[a]);
            }
        }
    }
}

/// Clearing pending challenges keeps every player free of challenges to itself.
pub proof fn clearing_keeps_no_self_requests(clients: Map<u128, ClientView>, id: u128)
    requires
        no_self_requests(clients),
    ensures
        no_self_requests(clear_requests(clients, id)),
{
    let cleared = clear_requests(clients, id);
    assert forall|other: u128| #[trigger] cleared.contains_key(other) implies !cleared[other].requests.contains(
        other,
    ) by {
        if other != id {
            assert(clients.contains_key(other));
        }
    }
}

/// A challenge never goes to the player who sends it.
pub proof fn challenge_never_targets_sender(
    usernames: Map<Seq<char>, u128>,
    clients: Map<u128, ClientView>,
    sender: u128,
    target_username: Seq<char>,
)
    ensures
        match match_request_outcome(usernames, clients, sender, target_username) {
            MatchRequestOutcome::Challenge { target } => target != sender && clients.contains_key(
                target,
            ),
            _ => true,
        },
{
}

/// A match always starts between two different players, the one who
/// challenged having a pending challenge to the one who accepted.
pub proof fn match_players_differ(
    clients: Map<u128, ClientView>,
    acceptor: u128,
    requester_text: Seq<char>,
)
    requires
        no_self_requests(clients),
    ensures
        match accept_outcome(clients, acceptor, requester_text) {
            AcceptOutcome::MatchStarts { requester } => requester != acceptor
                && clients.contains_key(requester) && clients[requester].requests.contains(acceptor),
            _ => true,
        },
{
}

/// Disconnecting undoes registering and connecting: a player whom
/// `register_username` registers, who connects with `add_client` and then
/// leaves with `disconnect`, leaves the registered names and the connected
/// players as they were.
pub proof fn disconnect_undoes_register_and_connect(
    usernames: Map<Seq<char>, u128>,
    clients: Map<u128, ClientView>,
    username: Seq<char>,
    id: u128,
    registered: Map<Seq<char>, u128>,
    name: Seq<char>,
)
    requires
        registration_made(usernames, username, RegisterOutcome::Registered(id), registered),
        !clients.contains_key(id),
    ensures
        registered.remove(name_key(username)) == usernames,
        clients.insert(id, ClientView { name, requests: Seq::empty() }).remove(id) == clients,
{
    assert(registered.remove(name_key(username)) =~= usernames);
    assert(clients.insert(id, ClientView { name, requests: Seq::empty() }).remove(id) =~= clients);
}

/// Whether `states` is a run of registrations: registering `usernames[t]`
/// in `states[t]` ended in `outcomes[t]` and left `states[t + 1]`.
pub open spec fn registration_run(
    states: Seq<Map<Seq<char>, u128>>,
    usernames: Seq<Seq<char>>,
    outcomes: Seq<RegisterOutcome>,
) -> bool {
    &&& states.len() == usernames.len() + 1
    &&& outcomes.len() == usernames.len()
    &&& forall|t: int|
        0 <= t < usernames.len() ==> #[trigger] registration_made(
            states[t],
            usernames[t],
            outcomes[t],
            states[t + 1],
        )
}

/// Over any run of registrations, a registered name keeps its identifier:
/// later registrations never change or remove a name, and every name they
/// add is the lowercase form of a username asked for, with the identifier
/// reported to the one who asked.
pub proof fn registrations_only_add(
    states: Seq<Map<Seq<char>, u128>>,
    usernames: Seq<Seq<char>>,
    outcomes: Seq<RegisterOutcome>,
    s: int,
    t: int,
)
    requires
        registration_run(states, usernames, outcomes),
        0 <= s <= t < states.len(),
    ensures
        forall|k: Seq<char>|
            #[trigger] states[s].contains_key(k) ==> states[t].contains_key(k) && states[t][k]
                == states[s][k],
        forall|k: Seq<char>|
            #[trigger] states[t].contains_key(k) && !states[s].contains_key(k) ==> exists|m: int|
                s <= m < t && k == #[trigger] name_key(usernames[m]) && outcomes[m]
                    == RegisterOutcome::Registered(states[t][k]),
    decreases t - s,
{
    if s < t {
        let u = t - 1;
        registrations_only_add(states, usernames, outcomes, s, u);
        assert(registration_made(states[u], usernames[u], outcomes[u], states[u + 1]));
        assert forall|k: Seq<char>|
            #[trigger] states[t].contains_key(k) && !states[s].contains_key(k) implies exists|m: int|
            s <= m < t && k == #[trigger] name_key(usernames[m]) && outcomes[m]
                == RegisterOutcome::Registered(states[t][k]) by {
            if states[u].contains_key(k) {
                let m = choose|m: int|
                    s <= m < u && k == #[trigger] name_key(usernames[m]) && outcomes[m]
                        == RegisterOutcome::Registered(states[u][k]);
                assert(states[t][k] == states[u][k]);
                assert(s <= m < t && k == name_key(usernames[m]));
            } else {
                assert(k == name_key(usernames[u]));
            }
        }
    }
}

} // verus!
