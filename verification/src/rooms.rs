//! The rooms of the collaboration server: for each file that is open, the
//! users that are in it, by session.

use vstd::prelude::*;
use vstd::string::*;
use std::collections::HashMap;

verus! {

/// A user in a room.
#[derive(Debug, Clone, PartialEq, Eq)]
pub struct User {
    /// The session the user came in with: the 128 bits of a UUID.
    pub session_id: u128,
    pub user_id: String,
    pub first_name: String,
    pub last_name: String,
    pub image: String,
    /// When the user was last heard of, in milliseconds.
    pub last_heartbeat: i64,
}

/// Mathematical model of a [`User`].
pub ghost struct UserView {
    pub session_id: u128,
    pub user_id: Seq<char>,
    pub first_name: Seq<char>,
    pub last_name: Seq<char>,
    pub image: Seq<char>,
    pub last_heartbeat: i64,
}

impl View for User {
    type V = UserView;

    open spec fn view(&self) -> UserView {
        UserView {
            session_id: self.session_id,
            user_id: self.user_id@,
            first_name: self.first_name@,
            last_name: self.last_name@,
            image: self.image@,
            last_heartbeat: self.last_heartbeat,
        }
    }
}

impl UserView {
    /// The same person in the same session: everything but the heartbeat is
    /// the same.
    pub open spec fn same_user(self, other: UserView) -> bool {
        &&& self.session_id == other.session_id
        &&& self.user_id == other.user_id
        &&& self.first_name == other.first_name
        &&& self.last_name == other.last_name
        &&& self.image == other.image
    }
}

impl User {
    /// Whether two records stand for the same person in the same session: the
    /// heartbeat is not compared.
    pub fn same_user(&self, other: &User) -> (r: bool)
        ensures
            r == self@.same_user(other@),
    {
        self.session_id == other.session_id && self.user_id == other.user_id && self.first_name
            == other.first_name && self.last_name == other.last_name && self.image == other.image
    }
}

/// Why a room or a user could not be reached.
#[derive(Debug, Clone, Copy, PartialEq, Eq, Structural)]
pub enum StateError {
    /// No room is open for the file.
    RoomNotFound { file_id: u128 },
    /// The session is not in the room of the file.
    UserNotFound { session_id: u128, file_id: u128 },
}

/// The text of the UUID with these 128 bits as `uuid::Uuid` displays it:
/// hyphenated, in lower-case hexadecimal digits.
pub uninterp spec fn uuid_text(id: u128) -> Seq<char>;

/// Makes the UUID with these 128 bits (`uuid::Uuid::from_u128`) and hands
/// back the text its `Display` writes (`to_string`). Nothing is proved of the
/// text; the contract gives it its name.
#[verifier::external_body]
fn uuid_string(id: u128) -> (r: String)
    ensures
        r@ == uuid_text(id),
{
    uuid::Uuid::from_u128(id).to_string()
}

impl StateError {
    /// The error in words.
    pub open spec fn spec_message(self) -> Seq<char> {
        match self {
            StateError::RoomNotFound { file_id } => "Room "@ + uuid_text(file_id) + " not found"@,
            StateError::UserNotFound { session_id, file_id } => "User "@ + uuid_text(session_id)
                + " not found in Room "@ + uuid_text(file_id),
        }
    }

    /// The error in words: `Room <file id> not found`, or `User <session id>
    /// not found in Room <file id>`.
    pub fn message(&self) -> (r: String)
        ensures
            r@ == self.spec_message(),
    {
        match self {
            StateError::RoomNotFound { file_id } => {
                let mut r: String = "Room ".to_owned();
                r.append(uuid_string(*file_id).as_str());
                r.append(" not found");
                r
            },
            StateError::UserNotFound { session_id, file_id } => {
                let mut r: String = "User ".to_owned();
                r.append(uuid_string(*session_id).as_str());
                r.append(" not found in Room ");
                r.append(uuid_string(*file_id).as_str());
                r
            },
        }
    }
}

/// The users that have one file open, by session id.
#[derive(Debug, Clone)]
pub struct Room {
    pub file_id: u128,
    pub users: HashMap<u128, User>,
}

/// Mathematical model of a [`Room`].
pub ghost struct RoomView {
    pub file_id: u128,
    pub users: Map<u128, UserView>,
}

/// The models of the users of a map, key by key.
pub open spec fn users_view(users: Map<u128, User>) -> Map<u128, UserView> {
    Map::new(|k: u128| users.contains_key(k), |k: u128| users[k]@)
}

impl View for Room {
    type V = RoomView;

    open spec fn view(&self) -> RoomView {
        RoomView { file_id: self.file_id, users: users_view(self.users@) }
    }
}

impl Room {
    /// A room without users.
    pub fn new(file_id: u128) -> (r: Room)
        ensures
            r@ == (RoomView { file_id, users: Map::empty() }),
    {
        let r = Room { file_id, users: HashMap::new() };
        assert(r@.users =~= Map::empty());
        r
    }

    /// Number of users in the room.
    pub fn len(&self) -> (n: usize)
        ensures
            n == self@.users.len(),
    {
        broadcast use vstd::std_specs::hash::group_hash_axioms;

        proof {
            assert(self@.users.dom() =~= self.users@.dom());
        }
        self.users.len()
    }

    /// The user with this session, if in the room.
    pub fn get(&self, session_id: u128) -> (r: Option<&User>)
        ensures
            r is Some <==> self@.users.contains_key(session_id),
            r is Some ==> r->Some_0@ == self@.users[session_id],
    {
        broadcast use vstd::std_specs::hash::group_hash_axioms;

        self.users.get(&session_id)
    }
}

/// Every room of the server, by file id. A room exists while a user is in
/// it.
#[derive(Debug, Clone)]
pub struct State {
    rooms: HashMap<u128, Room>,
}

impl View for State {
    type V = Map<u128, RoomView>;

    closed spec fn view(&self) -> Map<u128, RoomView> {
        Map::new(|k: u128| self.rooms@.contains_key(k), |k: u128| self.rooms@[k]@)
    }
}

/// The rooms after a user has entered the room of a file: the room is made
/// if it is not there, and the user stands under its session id.
pub open spec fn entered(rooms: Map<u128, RoomView>, file_id: u128, user: UserView) -> Map<
    u128,
    RoomView,
> {
    let room = if rooms.contains_key(file_id) {
        rooms[file_id]
    } else {
        RoomView { file_id, users: Map::empty() }
    };
    rooms.insert(file_id, RoomView { users: room.users.insert(user.session_id, user), ..room })
}

/// The rooms after a session has left the room of a file, which is removed if
/// it is empty then.
pub open spec fn left(rooms: Map<u128, RoomView>, file_id: u128, session_id: u128) -> Map<
    u128,
    RoomView,
> {
    let users = rooms[file_id].users.remove(session_id);
    if users.len() == 0 {
        rooms.remove(file_id)
    } else {
        rooms.insert(file_id, RoomView { users, ..rooms[file_id] })
    }
}

/// The rooms after a heartbeat of a session in the room of a file at the time
/// `now`: the time is noted if the session is in the room.
pub open spec fn heartbeat(rooms: Map<u128, RoomView>, file_id: u128, session_id: u128, now: i64) -> Map<
    u128,
    RoomView,
> {
    let room = rooms[file_id];
    if room.users.contains_key(session_id) {
        rooms.insert(
            file_id,
            RoomView {
                users: room.users.insert(
                    session_id,
                    UserView { last_heartbeat: now, ..room.users[session_id] },
                ),
                ..room
            },
        )
    } else {
        rooms
    }
}

impl State {
    /// A server without rooms.
    pub fn new() -> (s: State)
        ensures
            s@ == Map::<u128, RoomView>::empty(),
    {
        let s = State { rooms: HashMap::new() };
        assert(s@ =~= Map::<u128, RoomView>::empty());
        s
    }

    /// Number of rooms.
    pub fn len(&self) -> (n: usize)
        ensures
            n == self@.len(),
    {
        broadcast use vstd::std_specs::hash::group_hash_axioms;

        proof {
            assert(self@.dom() =~= self.rooms@.dom());
        }
        self.rooms.len()
    }

    /// Retrieves the room of a file.
    pub fn get_room(&self, file_id: u128) -> (r: Result<&Room, StateError>)
        ensures
            r is Ok <==> self@.contains_key(file_id),
            r is Ok ==> r->Ok_0@ == self@[file_id],
            r is Err ==> r->Err_0 == (StateError::RoomNotFound { file_id }),
    {
        broadcast use vstd::std_specs::hash::group_hash_axioms;

        match self.rooms.get(&file_id) {
            Some(room) => Ok(room),
            None => Err(StateError::RoomNotFound { file_id }),
        }
    }

    /// Add a user to a room. If the room doesn't exist, it is created. Users
    /// are only added to a room once, by session. Returns true if the user
    /// was newly added.
    pub fn enter_room(&mut self, file_id: u128, user: User) -> (is_new: bool)
        ensures
            final(self)@ == entered(old(self)@, file_id, user@),
            is_new == !(old(self)@.contains_key(file_id) && old(self)@[file_id].users.contains_key(
                user.session_id,
            )),
    {
        broadcast use vstd::std_specs::hash::group_hash_axioms;

        let ghost before = self@;
        let mut room: Room = match self.rooms.remove(&file_id) {
            Some(room) => room,
            None => Room::new(file_id),
        };
        let ghost had = room@;
        let ghost was_in = room.users@.contains_key(user.session_id);
        assert(was_in == had.users.contains_key(user.session_id));
        let previous = room.users.insert(user.session_id, user);
        assert(room@.users =~= had.users.insert(user.session_id, user@));
        self.rooms.insert(file_id, room);
        proof {
            if !before.contains_key(file_id) {
                assert(had == RoomView { file_id, users: Map::empty() });
            }
            assert(self@ =~= entered(before, file_id, user@)) by {
                assert(self@[file_id] == RoomView {
                    users: had.users.insert(user.session_id, user@),
                    ..had
                });
            }
        }
        previous.is_none()
    }

    /// Removes a user from a room. If the room is empty, it deletes the room.
    /// Returns true if the room still exists after the user leaves.
    pub fn leave_room(&mut self, file_id: u128, session_id: u128) -> (r: Result<bool, StateError>)
        ensures
            r is Ok <==> old(self)@.contains_key(file_id),
            r is Ok ==> final(self)@ == left(old(self)@, file_id, session_id) && r->Ok_0
                == final(self)@.contains_key(file_id),
            r is Err ==> final(self)@ == old(self)@ && r->Err_0 == (StateError::RoomNotFound {
                file_id,
            }),
    {
        broadcast use vstd::std_specs::hash::group_hash_axioms;

        let ghost before = self@;
        let mut room: Room = match self.rooms.remove(&file_id) {
            Some(room) => room,
            None => {
                assert(self@ =~= before);
                return Err(StateError::RoomNotFound { file_id });
            },
        };
        let ghost had = room@;
        room.users.remove(&session_id);
        assert(room@.users =~= had.users.remove(session_id));
        let num_in_room: usize = room.len();
        if num_in_room == 0 {
            assert(self@ =~= left(before, file_id, session_id));
        } else {
            self.rooms.insert(file_id, room);
            assert(self@ =~= left(before, file_id, session_id)) by {
                assert(self@[file_id] == RoomView { users: had.users.remove(session_id), ..had });
            }
        }
        Ok(num_in_room != 0)
    }

    /// Removes a room.
    pub fn remove_room(&mut self, file_id: u128)
        ensures
            final(self)@ == old(self)@.remove(file_id),
    {
        broadcast use vstd::std_specs::hash::group_hash_axioms;

        let ghost before = self@;
        self.rooms.remove(&file_id);
        assert(self@ =~= before.remove(file_id));
    }

    /// Retrieves a user in a room.
    pub fn get_user_in_room(&self, file_id: u128, session_id: u128) -> (r: Result<
        &User,
        StateError,
    >)
        ensures
            r is Ok <==> self@.contains_key(file_id) && self@[file_id].users.contains_key(
                session_id,
            ),
            r is Ok ==> r->Ok_0@ == self@[file_id].users[session_id],
            r is Err ==> r->Err_0 == if self@.contains_key(file_id) {
                StateError::UserNotFound { session_id, file_id }
            } else {
                StateError::RoomNotFound { file_id }
            },
    {
        broadcast use vstd::std_specs::hash::group_hash_axioms;

        match self.rooms.get(&file_id) {
            Some(room) => match room.get(session_id) {
                Some(user) => Ok(user),
                None => Err(StateError::UserNotFound { session_id, file_id }),
            },
            None => Err(StateError::RoomNotFound { file_id }),
        }
    }

    /// Updates a user's heartbeat in a room to the time `now`. A session that
    /// is not in the room is passed over.
    pub fn update_heartbeat(&mut self, file_id: u128, session_id: u128, now: i64) -> (r: Result<
        (),
        StateError,
    >)
        ensures
            r is Ok <==> old(self)@.contains_key(file_id),
            r is Ok ==> final(self)@ == heartbeat(old(self)@, file_id, session_id, now),
            r is Err ==> final(self)@ == old(self)@ && r->Err_0 == (StateError::RoomNotFound {
                file_id,
            }),
    {
        broadcast use vstd::std_specs::hash::group_hash_axioms;

        let ghost before = self@;
        let mut room: Room = match self.rooms.remove(&file_id) {
            Some(room) => room,
            None => {
                assert(self@ =~= before);
                return Err(StateError::RoomNotFound { file_id });
            },
        };
        let ghost had = room@;
        match room.users.remove(&session_id) {
            Some(user) => {
                let mut user = user;
                let ghost was = user@;
                user.last_heartbeat = now;
                room.users.insert(session_id, user);
                assert(room@.users =~= had.users.insert(
                    session_id,
                    UserView { last_heartbeat: now, ..was },
                ));
            },
            None => {
                assert(room@.users =~= had.users);
            },
        }
        self.rooms.insert(file_id, room);
        assert(self@ =~= heartbeat(before, file_id, session_id, now)) by {
            assert(self@[file_id] == room@);
        }
        Ok(())
    }
}

} // verus!
