use fox_tools::discovery::{
    device_ws_url, retry_step, search_step, server_url, Answer, IpHost, RetryStep, SearchItem,
    SearchStep, DEFAULT_PORT, SCAN_INTERVAL_SECS, SERVICE_TYPE,
};

const NAME: &str = "RadioMaster Referee System._http._tcp.local";

fn v4() -> IpHost {
    IpHost::V4([192, 168, 0, 10])
}

fn answer(name: Option<&str>, socket: Option<(IpHost, u16)>, ip: Option<IpHost>) -> Answer {
    Answer { hostname: name.map(|s| s.to_string()), socket, ip }
}

#[test]
fn announced_ports_are_preferred() {
    let a = answer(Some(NAME), Some((v4(), 8080)), Some(v4()));
    assert_eq!(server_url(&a).as_deref(), Some("ws://192.168.0.10:8080"));
    let a = answer(Some(NAME), None, Some(v4()));
    assert_eq!(server_url(&a).as_deref(), Some("ws://192.168.0.10:3000"));
    assert_eq!(DEFAULT_PORT, 3000);
}

#[test]
fn version_six_addresses_stand_in_brackets() {
    let a = answer(Some(NAME), Some((IpHost::V6("fe80::1".to_string()), 80)), None);
    assert_eq!(server_url(&a).as_deref(), Some("ws://[fe80::1]:80"));
    let a = answer(Some(NAME), None, Some(IpHost::V6("::1".to_string())));
    assert_eq!(server_url(&a).as_deref(), Some("ws://[::1]:3000"));
}

#[test]
fn other_answers_are_passed_over() {
    assert!(server_url(&answer(None, Some((v4(), 1)), None)).is_none());
    assert!(server_url(&answer(Some(NAME), None, None)).is_none());
    for name in ["Other._http._tcp.local", "RadioMaster Referee System._ipp._tcp.local", ""] {
        assert!(server_url(&answer(Some(name), Some((v4(), 1)), None)).is_none());
    }
    let numbered = "RadioMaster Referee System (2)._http._tcp.local";
    assert!(server_url(&answer(Some(numbered), Some((v4(), 1)), None)).is_some());
}

#[test]
fn the_search_ends_with_the_first_server() {
    let items = [
        SearchItem::Answer(answer(Some("x"), Some((v4(), 1)), None)),
        SearchItem::Answer(answer(Some(NAME), None, None)),
        SearchItem::Answer(answer(Some(NAME), Some((v4(), 2)), None)),
        SearchItem::Answer(answer(Some(NAME), Some((v4(), 3)), None)),
    ];
    let mut found = None;
    for item in &items {
        match search_step(item) {
            SearchStep::Continue => {}
            SearchStep::Found(url) => {
                found = Some(url);
                break;
            }
            SearchStep::NotFound(text) => panic!("{text}"),
        }
    }
    assert_eq!(found.as_deref(), Some("ws://192.168.0.10:2"));
}

#[test]
fn the_search_ends_without_a_server() {
    for item in [SearchItem::Failed, SearchItem::Ended] {
        match search_step(&item) {
            SearchStep::NotFound(text) => assert_eq!(text, "没找到裁判系统"),
            other => panic!("{other:?}"),
        }
    }
    assert_eq!(SERVICE_TYPE, "_http._tcp.local");
}

#[test]
fn a_failed_search_is_repeated() {
    match retry_step(Err("没找到裁判系统".to_string())) {
        RetryStep::Retry { text, delay_secs } => {
            assert_eq!(text, "搜索裁判系统服务器失败：没找到裁判系统，将在 5 秒后重试...");
            assert_eq!(delay_secs, SCAN_INTERVAL_SECS);
        }
        other => panic!("{other:?}"),
    }
    match retry_step(Ok("ws://a:1".to_string())) {
        RetryStep::Connect(url) => assert_eq!(url, "ws://a:1"),
        other => panic!("{other:?}"),
    }
}

#[test]
fn device_urls() {
    assert_eq!(device_ws_url("ws://a:1", "42"), "ws://a:1/ws/devices/42");
}
