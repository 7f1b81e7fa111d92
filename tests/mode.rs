use avail_light_p2p::mode::{needs_host_resources, next_mode, HostResources, Mode};

const GIB: u64 = 1024 * 1024 * 1024;

fn host(gib: u64, cpus: usize) -> HostResources {
    HostResources { total_memory_bytes: gib * GIB, cpu_count: cpus }
}

#[test]
fn reachable_client_on_large_host_becomes_server() {
    assert_eq!(next_mode(Mode::Client, true, host(16, 8), 8 * GIB, 4), Mode::Server);
}

#[test]
fn server_without_external_address_becomes_client() {
    assert_eq!(next_mode(Mode::Server, false, host(16, 8), 8 * GIB, 4), Mode::Client);
}

#[test]
fn client_on_small_host_stays_client() {
    assert_eq!(next_mode(Mode::Client, true, host(8, 8), 8 * GIB, 4), Mode::Client);
    assert_eq!(next_mode(Mode::Client, true, host(16, 4), 8 * GIB, 4), Mode::Client);
}

#[test]
fn unreachable_client_stays_client() {
    assert_eq!(next_mode(Mode::Client, false, host(64, 64), 8 * GIB, 4), Mode::Client);
}

#[test]
fn reachable_server_stays_server() {
    assert_eq!(next_mode(Mode::Server, true, host(1, 1), 8 * GIB, 4), Mode::Server);
}

#[test]
fn only_reachable_client_reads_host() {
    assert!(needs_host_resources(Mode::Client, true));
    assert!(!needs_host_resources(Mode::Client, false));
    assert!(!needs_host_resources(Mode::Server, true));
}
