use ant_engine::protocols::{DistributorClientMessages, DistributorServerMessages, Endpoint, Host};
use ant_engine::server::{session_action, Distributer, DistributorError, Lobby, Poll, SessionAction};

fn local(port: u16) -> Endpoint {
    Endpoint { host: Host::V4(0x7f00_0001), port }
}

fn seeded(n: u16) -> Distributer {
    Distributer::new((0..n).map(|i| local(3000 + i)).collect())
}

#[test]
fn distributer_first_endpoint_is_main() {
    let d = seeded(3);
    assert_eq!(d.main_endpoint(), local(3000));
    assert_eq!(d.free_endpoints(), vec![local(3001), local(3002)]);
    assert_eq!(d.lobby_count(), 0);
}

#[test]
fn distributer_only_main_endpoint() {
    let mut d = seeded(1);
    assert!(d.free_endpoints().is_empty());
    assert_eq!(d.try_open_lobby(), Err(DistributorError::ResourceExhausted));
}

#[test]
fn distributer_lists_nothing_before_any_lobby() {
    let d = seeded(5);
    assert!(d.list_lobbies().is_empty());
}

#[test]
fn distributer_lists_the_first_lobby() {
    let mut d = seeded(3);
    assert_eq!(d.try_open_lobby(), Ok(0));
    assert_eq!(d.lobby(0), Lobby { id: 0, control: local(3001), data: local(3002) });
    assert_eq!(d.list_lobbies(), vec![local(3002)]);
    assert!(d.free_endpoints().is_empty());
}

#[test]
fn distributer_four_endpoints_two_lobbies() {
    let mut d = seeded(5);
    assert_eq!(d.try_open_lobby(), Ok(0));
    let first = d.lobby(0);
    assert_eq!(d.try_open_lobby(), Ok(1));
    let second = d.lobby(1);
    assert_eq!(d.try_open_lobby(), Err(DistributorError::ResourceExhausted));
    assert_eq!(d.list_lobbies(), vec![first.data, second.data]);
    assert_eq!(first, Lobby { id: 0, control: local(3003), data: local(3004) });
    assert_eq!(second, Lobby { id: 1, control: local(3001), data: local(3002) });
}

#[test]
fn distributer_odd_pool_leaves_one() {
    let mut d = seeded(4);
    assert_eq!(d.try_open_lobby(), Ok(0));
    assert_eq!(d.try_open_lobby(), Err(DistributorError::ResourceExhausted));
    assert_eq!(d.free_endpoints(), vec![local(3001)]);
    assert_eq!(d.lobby_count(), 1);
}

#[test]
fn distributer_failure_changes_nothing() {
    let mut d = seeded(2);
    assert_eq!(d.try_open_lobby(), Err(DistributorError::ResourceExhausted));
    assert_eq!(d.free_endpoints(), vec![local(3001)]);
    assert!(d.list_lobbies().is_empty());
}

#[test]
fn distributer_answers_requests() {
    let mut d = seeded(3);
    assert_eq!(
        d.handle_request(DistributorClientMessages::AskForLobbies),
        Some(DistributorServerMessages::Lobbies(vec![]))
    );
    assert_eq!(
        d.handle_request(DistributorClientMessages::OpenLobby),
        Some(DistributorServerMessages::LobbyOpened(local(3002)))
    );
    assert_eq!(
        d.handle_request(DistributorClientMessages::AskForLobbies),
        Some(DistributorServerMessages::Lobbies(vec![local(3002)]))
    );
    assert_eq!(d.handle_request(DistributorClientMessages::OpenLobby), None);
    assert_eq!(d.lobby_count(), 1);
}

#[test]
fn distributer_ipv6_endpoints() {
    let v6 = |port| Endpoint { host: Host::V6 { addr: 1, flowinfo: 0, scope_id: 2 }, port };
    let mut d = Distributer::new(vec![v6(1), v6(2), v6(3)]);
    assert_eq!(
        d.handle_request(DistributorClientMessages::OpenLobby),
        Some(DistributorServerMessages::LobbyOpened(v6(3)))
    );
}

#[test]
fn server_messages_compare_by_contents() {
    let a = DistributorServerMessages::Lobbies(vec![local(1), local(2)]);
    assert_eq!(a, DistributorServerMessages::Lobbies(vec![local(1), local(2)]));
    assert_ne!(a, DistributorServerMessages::Lobbies(vec![local(2), local(1)]));
    assert_ne!(a, DistributorServerMessages::Lobbies(vec![local(1)]));
    assert_ne!(a, DistributorServerMessages::LobbyOpened(local(1)));
    assert_eq!(
        DistributorServerMessages::LobbyOpened(local(4)),
        DistributorServerMessages::LobbyOpened(local(4))
    );
    assert_ne!(
        DistributorServerMessages::LobbyOpened(local(4)),
        DistributorServerMessages::LobbyOpened(Endpoint {
            host: Host::V6 { addr: 0x7f00_0001, flowinfo: 0, scope_id: 0 },
            port: 4
        })
    );
}

#[test]
fn session_echoes_what_arrives() {
    assert_eq!(session_action(Poll::Received(13)), SessionAction::Echo(13));
    assert_eq!(session_action(Poll::Received(0)), SessionAction::Echo(0));
    assert_eq!(session_action(Poll::WouldBlock), SessionAction::Retry);
    assert_eq!(session_action(Poll::Failed), SessionAction::Finish);
    assert_eq!(session_action(Poll::Stopped), SessionAction::Finish);
}
