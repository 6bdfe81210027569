use loctrack::double_echo_report::Logic;

const N_SERVERS: usize = 5;
const SERVER_ID: usize = 3;
const OTHER_SERVER_ID: usize = 1;
const CLIENT_ID: usize = 7;
const OTHER_CLIENT_ID: usize = 4;
const EPOCH: usize = 5;
const OTHER_EPOCH: usize = 7;

#[test]
fn start_echo() {
    let mut logic = Logic::new(N_SERVERS);

    assert!(logic.start_echo(CLIENT_ID, EPOCH));
}

#[test]
fn double_start_echo_same_client() {
    let mut logic = Logic::new(N_SERVERS);

    assert!(logic.start_echo(CLIENT_ID, EPOCH));
    assert!(!logic.start_echo(CLIENT_ID, EPOCH));
}

#[test]
fn double_start_echo_diff_client() {
    let mut logic = Logic::new(N_SERVERS);

    assert!(logic.start_echo(CLIENT_ID, EPOCH));
    assert!(logic.start_echo(OTHER_CLIENT_ID, EPOCH));
}

#[test]
fn double_start_echo_diff_epoch() {
    let mut logic = Logic::new(N_SERVERS);

    assert!(logic.start_echo(CLIENT_ID, EPOCH));
    assert!(logic.start_echo(CLIENT_ID, OTHER_EPOCH));
}

#[test]
fn start_ready() {
    let mut logic = Logic::new(N_SERVERS);

    assert!(logic.start_ready(CLIENT_ID, EPOCH));
}

#[test]
fn double_start_ready_same_client() {
    let mut logic = Logic::new(N_SERVERS);

    assert!(logic.start_ready(CLIENT_ID, EPOCH));
    assert!(!logic.start_ready(CLIENT_ID, EPOCH));
}

#[test]
fn double_start_ready_diff_client() {
    let mut logic = Logic::new(N_SERVERS);

    assert!(logic.start_ready(CLIENT_ID, EPOCH));
    assert!(logic.start_ready(OTHER_CLIENT_ID, EPOCH));
}

#[test]
fn double_start_ready_diff_epoch() {
    let mut logic = Logic::new(N_SERVERS);

    assert!(logic.start_ready(CLIENT_ID, EPOCH));
    assert!(logic.start_ready(CLIENT_ID, OTHER_EPOCH));
}

#[test]
fn start_deliver() {
    let mut logic = Logic::new(N_SERVERS);

    assert!(logic.start_deliver(CLIENT_ID, EPOCH));
}

#[test]
fn double_start_deliver_same_client() {
    let mut logic = Logic::new(N_SERVERS);

    assert!(logic.start_deliver(CLIENT_ID, EPOCH));
    assert!(!logic.start_deliver(CLIENT_ID, EPOCH));
}

#[test]
fn double_start_deliver_diff_client() {
    let mut logic = Logic::new(N_SERVERS);

    assert!(logic.start_deliver(CLIENT_ID, EPOCH));
    assert!(logic.start_deliver(OTHER_CLIENT_ID, EPOCH));
}

#[test]
fn double_start_deliver_diff_epoch() {
    let mut logic = Logic::new(N_SERVERS);

    assert!(logic.start_deliver(CLIENT_ID, EPOCH));
    assert!(logic.start_deliver(CLIENT_ID, OTHER_EPOCH));
}

#[test]
fn has_been_delivered() {
    let mut logic = Logic::new(N_SERVERS);

    logic.start_deliver(CLIENT_ID, EPOCH);

    assert!(logic.has_been_delivered(CLIENT_ID, EPOCH));
}

#[test]
fn has_not_yet_been_delivered() {
    let logic = Logic::new(N_SERVERS);

    assert!(!logic.has_been_delivered(CLIENT_ID, EPOCH));
}

#[test]
fn add_server_to_echo_msg() {
    let mut logic = Logic::new(N_SERVERS);

    let msg = b"msg".to_vec();

    assert_eq!(1, logic.add_server_to_echo_msg(CLIENT_ID, EPOCH, SERVER_ID, &msg));
}

#[test]
fn add_two_servers_to_echo_msg() {
    let mut logic = Logic::new(N_SERVERS);

    let msg = b"msg".to_vec();

    assert_eq!(1, logic.add_server_to_echo_msg(CLIENT_ID, EPOCH, SERVER_ID, &msg));
    assert_eq!(2, logic.add_server_to_echo_msg(CLIENT_ID, EPOCH, OTHER_SERVER_ID, &msg));
}

#[test]
fn add_two_servers_to_echo_msg_off_diff_clients() {
    let mut logic = Logic::new(N_SERVERS);

    let msg = b"msg".to_vec();

    assert_eq!(1, logic.add_server_to_echo_msg(CLIENT_ID, EPOCH, SERVER_ID, &msg));
    assert_eq!(1, logic.add_server_to_echo_msg(OTHER_CLIENT_ID, EPOCH, OTHER_SERVER_ID, &msg));
}

#[test]
fn has_echo_message() {
    let mut logic = Logic::new(N_SERVERS);

    let msg = b"msg".to_vec();

    logic.add_server_to_echo_msg(CLIENT_ID, EPOCH, SERVER_ID, &msg);

    assert!(logic.has_echo_message(CLIENT_ID, EPOCH, &msg));
}

#[test]
fn has_not_echo_message() {
    let mut logic = Logic::new(N_SERVERS);

    let msg = b"msg".to_vec();

    logic.add_server_to_echo_msg(OTHER_CLIENT_ID, EPOCH, SERVER_ID, &msg);

    assert!(!logic.has_echo_message(CLIENT_ID, EPOCH, &msg));
}

#[test]
fn add_server_to_ready_msg() {
    let mut logic = Logic::new(N_SERVERS);

    let msg = b"msg".to_vec();

    assert_eq!(1, logic.add_server_to_ready_msg(CLIENT_ID, EPOCH, SERVER_ID, &msg));
}

#[test]
fn add_two_servers_to_ready_msg() {
    let mut logic = Logic::new(N_SERVERS);

    let msg = b"msg".to_vec();

    assert_eq!(1, logic.add_server_to_ready_msg(CLIENT_ID, EPOCH, SERVER_ID, &msg));
    assert_eq!(2, logic.add_server_to_ready_msg(CLIENT_ID, EPOCH, OTHER_SERVER_ID, &msg));
}

#[test]
fn add_two_servers_to_ready_msg_off_diff_clients() {
    let mut logic = Logic::new(N_SERVERS);

    let msg = b"msg".to_vec();

    assert_eq!(1, logic.add_server_to_ready_msg(CLIENT_ID, EPOCH, SERVER_ID, &msg));
    assert_eq!(1, logic.add_server_to_ready_msg(OTHER_CLIENT_ID, EPOCH, OTHER_SERVER_ID, &msg));
}

#[test]
fn has_ready_message() {
    let mut logic = Logic::new(N_SERVERS);

    let msg = b"msg".to_vec();

    logic.add_server_to_ready_msg(CLIENT_ID, EPOCH, SERVER_ID, &msg);

    assert!(logic.has_ready_message(CLIENT_ID, EPOCH, &msg));
}

#[test]
fn has_not_ready_message() {
    let mut logic = Logic::new(N_SERVERS);

    let msg = b"msg".to_vec();

    logic.add_server_to_ready_msg(OTHER_CLIENT_ID, EPOCH, SERVER_ID, &msg);

    assert!(!logic.has_ready_message(CLIENT_ID, EPOCH, &msg));
}

#[test]
fn same_server_votes_once_per_instance() {
    let mut logic = Logic::new(N_SERVERS);
    let msg = b"msg".to_vec();
    let other = b"other".to_vec();
    assert_eq!(1, logic.add_server_to_echo_msg(CLIENT_ID, EPOCH, SERVER_ID, &msg));
    // the same server cannot vote again, not even for another message
    assert_eq!(1, logic.add_server_to_echo_msg(CLIENT_ID, EPOCH, SERVER_ID, &other));
    assert!(!logic.has_echo_message(CLIENT_ID, EPOCH, &other));
}
