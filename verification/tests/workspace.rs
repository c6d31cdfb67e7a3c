use portboard::dashboard_server::is_loopback_bind_address;
use portboard::herdr_workspace::{shell_quote, tab_is_reapable, LaunchTargetPaneLiveness};
use portboard::ip_text::{IpAddress, SocketAddress};
use portboard::launch_target_processes::looks_like_interactive_shell;

fn pane(portboard_owned: bool, has_foreground_command: bool) -> LaunchTargetPaneLiveness {
    LaunchTargetPaneLiveness { portboard_owned, has_foreground_command }
}

fn socket(ip: IpAddress, port: &str) -> SocketAddress {
    SocketAddress { ip, scope: 0, port: port.parse().expect("port") }
}

/// What the resolver answers for an address of this test.
fn resolve(address: &str) -> Option<Vec<SocketAddress>> {
    let (host, port) = address.rsplit_once(':')?;
    let six = IpAddress::V6([0, 0, 0, 0, 0, 0, 0, 1]);
    match host {
        "localhost" => {
            Some(vec![socket(six, port), socket(IpAddress::V4([127, 0, 0, 1]), port)])
        }
        "[::1]" => Some(vec![socket(six, port)]),
        literal => {
            let octets: Vec<u8> =
                literal.split('.').map(|octet| octet.parse().expect("octet")).collect();
            Some(vec![socket(
                IpAddress::V4([octets[0], octets[1], octets[2], octets[3]]),
                port,
            )])
        }
    }
}

#[test]
fn only_accepts_loopback_dashboard_addresses() {
    for address in ["127.0.0.1:9777", "127.0.0.2:9777", "localhost:9777", "[::1]:9777"] {
        assert!(is_loopback_bind_address(&resolve(address)), "{address}");
    }
    for address in ["0.0.0.0:9777", "192.168.1.10:9777", "192.0.2.1:9777"] {
        assert!(!is_loopback_bind_address(&resolve(address)), "{address}");
    }
}

#[test]
fn reaps_a_tab_whose_host_shells_are_all_idle_and_owned() {
    assert!(tab_is_reapable(&[pane(true, false)]));
    assert!(tab_is_reapable(&[pane(true, false), pane(true, false)]));
}

#[test]
fn keeps_tabs_with_busy_or_foreign_panes() {
    // The server is still running in one of the panes.
    assert!(!tab_is_reapable(&[pane(true, true)]));
    // A foreign shell (user split, no Portboard marker) blocks reaping.
    assert!(!tab_is_reapable(&[pane(true, false), pane(false, false)]));
    // Nothing Portboard-owned means the tab is not ours to close.
    assert!(!tab_is_reapable(&[pane(false, false)]));
    assert!(!tab_is_reapable(&[]));
}

#[test]
fn shell_quotes_arguments_for_pane_run() {
    assert_eq!(shell_quote("sleep"), "'sleep'");
    assert_eq!(shell_quote("exec -a renamed sleep 300"), "'exec -a renamed sleep 300'");
    assert_eq!(shell_quote("it's"), "'it'\\''s'");
    assert_eq!(shell_quote("$HOME `x` ;"), "'$HOME `x` ;'");
}

#[test]
fn ignores_interactive_host_shells_carrying_the_identity() {
    // A bare shell inherits PORTBOARD_TARGET_ID from the host pane but is
    // never a live run, while `sh -c ...` wrappers stay detectable.
    assert!(looks_like_interactive_shell(&["bash".to_string()]));
    assert!(looks_like_interactive_shell(&["-bash".to_string()]));
    assert!(looks_like_interactive_shell(&["/usr/bin/zsh".to_string()]));
    assert!(!looks_like_interactive_shell(&[
        "bash".to_string(),
        "-c".to_string(),
        "exec server".to_string()
    ]));
    assert!(!looks_like_interactive_shell(&["node".to_string(), "server.js".to_string()]));
    assert!(!looks_like_interactive_shell(&[]));
}
