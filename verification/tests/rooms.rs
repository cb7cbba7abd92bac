use quadratic_core::rooms::{State, StateError, User};

fn new_user(session_id: u128, first_name: &str) -> User {
    User {
        session_id,
        user_id: format!("user-{session_id}"),
        first_name: first_name.to_string(),
        last_name: "Doe".to_string(),
        image: "/images/face.png".to_string(),
        last_heartbeat: 1_000,
    }
}

#[test]
fn enters_retrieves_leaves_and_removes_a_room() {
    let mut state = State::new();
    let file_id: u128 = 0x1234;
    let user = new_user(1, "Ada");
    let user2 = new_user(2, "Grace");

    let is_new = state.enter_room(file_id, user.clone());
    let room = state.get_room(file_id).unwrap();
    let found = room.users.get(&user.session_id).unwrap();

    assert!(is_new);
    assert_eq!(state.len(), 1);
    assert_eq!(room.users.len(), 1);
    assert_eq!(room.users.get(&user.session_id), Some(found));
    assert_eq!(*found, user);

    // leave the room of 2 users
    state.enter_room(file_id, user2.clone());
    state.leave_room(file_id, user.session_id).unwrap();
    let room = state.get_room(file_id).unwrap();

    assert_eq!(room.users.len(), 1);
    assert_eq!(room.users.get(&user2.session_id), Some(&user2));

    // leave a room of 1 user
    state.leave_room(file_id, user2.session_id).unwrap();
    let room = state.get_room(file_id);
    assert!(room.is_err());
}

#[test]
fn updates_a_users_heartbeat() {
    let mut state = State::new();
    let file_id: u128 = 0x1234;
    let user = new_user(1, "Ada");

    state.enter_room(file_id, user.clone());
    let old_heartbeat = state.get_user_in_room(file_id, user.session_id).unwrap().last_heartbeat;

    state.update_heartbeat(file_id, user.session_id, 2_000).unwrap();
    let new_heartbeat = state.get_user_in_room(file_id, user.session_id).unwrap().last_heartbeat;

    assert!(old_heartbeat < new_heartbeat);
    assert_eq!(new_heartbeat, 2_000);
}

#[test]
fn entering_twice_is_not_new() {
    let mut state = State::new();
    assert!(state.enter_room(7, new_user(1, "Ada")));
    assert!(!state.enter_room(7, new_user(1, "Ada again")));
    assert_eq!(state.get_room(7).unwrap().len(), 1);
    assert_eq!(state.get_user_in_room(7, 1).unwrap().first_name, "Ada again");
    // the same session in another room is new there
    assert!(state.enter_room(8, new_user(1, "Ada")));
    assert_eq!(state.len(), 2);
}

#[test]
fn leave_room_says_whether_the_room_remains() {
    let mut state = State::new();
    state.enter_room(7, new_user(1, "Ada"));
    state.enter_room(7, new_user(2, "Grace"));
    assert_eq!(state.leave_room(7, 1), Ok(true));
    // a session that is not in the room leaves nothing
    assert_eq!(state.leave_room(7, 5), Ok(true));
    assert_eq!(state.leave_room(7, 2), Ok(false));
    assert_eq!(state.len(), 0);
    assert_eq!(state.leave_room(7, 2), Err(StateError::RoomNotFound { file_id: 7 }));
}

#[test]
fn errors_name_what_is_missing() {
    let mut state = State::new();
    assert_eq!(
        state.get_user_in_room(7, 1).unwrap_err(),
        StateError::RoomNotFound { file_id: 7 }
    );
    assert_eq!(state.update_heartbeat(7, 1, 5), Err(StateError::RoomNotFound { file_id: 7 }));
    state.enter_room(7, new_user(1, "Ada"));
    assert_eq!(
        state.get_user_in_room(7, 2).unwrap_err(),
        StateError::UserNotFound { session_id: 2, file_id: 7 }
    );
    // a heartbeat of a session that is not in the room is passed over
    assert_eq!(state.update_heartbeat(7, 2, 5), Ok(()));
    assert_eq!(state.get_user_in_room(7, 1).unwrap().last_heartbeat, 1_000);
    assert_eq!(
        StateError::RoomNotFound { file_id: 7 }.message(),
        "Room 00000000-0000-0000-0000-000000000007 not found"
    );
    assert_eq!(
        StateError::UserNotFound { session_id: 0xa1a2a3a4b1b2c1c2d1d2d3d4d5d6d7d8, file_id: 7 }
            .message(),
        "User a1a2a3a4-b1b2-c1c2-d1d2-d3d4d5d6d7d8 not found in Room 00000000-0000-0000-0000-000000000007"
    );
    state.remove_room(7);
    assert_eq!(state.len(), 0);
}

#[test]
fn same_user_ignores_the_heartbeat() {
    let a = new_user(1, "Ada");
    let mut b = new_user(1, "Ada");
    b.last_heartbeat = 9_999;
    assert!(a.same_user(&b));
    let c = new_user(2, "Ada");
    assert!(!a.same_user(&c));
    let mut d = new_user(1, "Ada");
    d.image = "/other.png".to_string();
    assert!(!a.same_user(&d));
}
