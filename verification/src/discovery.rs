//! The search for the server on the local network.

use crate::numbers::{
    decimal, is_digit, law_decimal_reads_back, law_decimal_tells_numbers_apart,
    lemma_decimal_value, parsed_unsigned, push_decimal,
};
use crate::text::{ends_with, has_prefix, has_suffix, law_text_starts_and_ends, starts_with};
use vstd::prelude::*;
use vstd::string::*;

verus! {

/// The service that the server announces.
pub const SERVICE_TYPE: &'static str = "_http._tcp.local";

/// The name under which the server announces it.
pub const INSTANCE_NAME: &'static str = "RadioMaster Referee System";

/// The port of a server that announces none.
pub const DEFAULT_PORT: u16 = 3000;

/// How long to wait before the search starts again, in seconds.
pub const SCAN_INTERVAL_SECS: u64 = 5;

/// An address of a server.
#[derive(Debug)]
pub enum IpHost {
    /// The four bytes of an IPv4 address.
    V4([u8; 4]),
    /// The text of an IPv6 address.
    V6(String),
}

/// An answer to the search: what it holds of the announced name, of address and port
/// together, and of the address alone.
#[derive(Debug)]
pub struct Answer {
    pub hostname: Option<String>,
    pub socket: Option<(IpHost, u16)>,
    pub ip: Option<IpHost>,
}

/// An address of a server, as values of the specification.
pub enum HostView {
    V4(Seq<u8>),
    V6(Seq<char>),
}

/// An answer to the search, as values of the specification.
pub struct AnswerView {
    pub hostname: Option<Seq<char>>,
    pub socket: Option<(HostView, u16)>,
    pub ip: Option<HostView>,
}

impl View for IpHost {
    type V = HostView;

    open spec fn view(&self) -> HostView {
        match self {
            IpHost::V4(octets) => HostView::V4(octets@),
            IpHost::V6(text) => HostView::V6(text@),
        }
    }
}

impl View for Answer {
    type V = AnswerView;

    open spec fn view(&self) -> AnswerView {
        AnswerView {
            hostname: match self.hostname {
                Some(name) => Some(name@),
                None => None,
            },
            socket: match self.socket {
                Some((host, port)) => Some((host@, port)),
                None => None,
            },
            ip: match self.ip {
                Some(host) => Some(host@),
                None => None,
            },
        }
    }
}

/// An answer is seen with its whole name, its addresses and its port.
pub proof fn law_answer_is_seen_whole(answer: Answer)
    ensures
        answer.hostname matches Some(name) ==> answer@.hostname == Some(name@),
        answer.hostname is None ==> answer@.hostname is None,
        answer.socket matches Some((IpHost::V4(o), port)) ==> answer@.socket == Some(
            (HostView::V4(o@), port),
        ),
        answer.socket matches Some((IpHost::V6(text), port)) ==> answer@.socket == Some(
            (HostView::V6(text@), port),
        ),
        answer.socket is None ==> answer@.socket is None,
        answer.ip matches Some(IpHost::V4(o)) ==> answer@.ip == Some(HostView::V4(o@)),
        answer.ip matches Some(IpHost::V6(text)) ==> answer@.ip == Some(HostView::V6(text@)),
        answer.ip is None ==> answer@.ip is None,
{
}

/// An address as it stands in a URL.
pub open spec fn host_text(host: HostView) -> Seq<char> {
    match host {
        HostView::V4(o) => decimal(o[0] as nat) + "."@ + decimal(o[1] as nat) + "."@ + decimal(
            o[2] as nat,
        ) + "."@ + decimal(o[3] as nat),
        HostView::V6(text) => "["@ + text + "]"@,
    }
}

/// The URL of the server at `host` and `port`.
pub open spec fn url_text(host: HostView, port: nat) -> Seq<char> {
    "ws://"@ + host_text(host) + ":"@ + decimal(port)
}

/// Two texts that are the same up to a character, and hold it there for the first time, have
/// the same parts before it and behind it.
proof fn lemma_split_at_first(a: Seq<char>, x: Seq<char>, b: Seq<char>, y: Seq<char>, c: char)
    requires
        a + seq![c] + x == b + seq![c] + y,
        !a.contains(c),
        !b.contains(c),
    ensures
        a == b,
        x == y,
{
    let s = a + seq![c] + x;
    let t = b + seq![c] + y;
    assert(s[a.len() as int] == c);
    assert(t[b.len() as int] == c);
    if a.len() < b.len() {
        assert(t[a.len() as int] == b[a.len() as int]);
    } else if b.len() < a.len() {
        assert(s[b.len() as int] == a[b.len() as int]);
    }
    assert(s.len() == t.len());
    assert(a =~= b) by {
        assert forall|i: int| 0 <= i < a.len() implies a[i] == b[i] by {
            assert(s[i] == a[i] && t[i] == b[i]);
        }
    }
    assert(x =~= y) by {
        assert forall|i: int| 0 <= i < x.len() implies x[i] == y[i] by {
            assert(s[i + a.len() + 1] == x[i] && t[i + b.len() + 1] == y[i]);
        }
    }
}

/// The same, where the character is there for the last time.
proof fn lemma_split_at_last(a: Seq<char>, x: Seq<char>, b: Seq<char>, y: Seq<char>, c: char)
    requires
        a + seq![c] + x == b + seq![c] + y,
        !x.contains(c),
        !y.contains(c),
    ensures
        a == b,
        x == y,
{
    let s = a + seq![c] + x;
    let t = b + seq![c] + y;
    assert(s.len() == t.len());
    assert(s[a.len() as int] == c);
    assert(t[b.len() as int] == c);
    if a.len() < b.len() {
        assert(s[b.len() as int] == x[b.len() - a.len() - 1]);
    } else if b.len() < a.len() {
        assert(t[a.len() as int] == y[a.len() - b.len() - 1]);
    }
    assert(a =~= b) by {
        assert forall|i: int| 0 <= i < a.len() implies a[i] == b[i] by {
            assert(s[i] == a[i] && t[i] == b[i]);
        }
    }
    assert(x =~= y) by {
        assert forall|i: int| 0 <= i < x.len() implies x[i] == y[i] by {
            assert(s[i + a.len() + 1] == x[i] && t[i + b.len() + 1] == y[i]);
        }
    }
}

/// A number in decimal holds neither a dot nor a colon, and starts with a digit.
proof fn lemma_decimal_is_plain(n: nat)
    ensures
        decimal(n).len() > 0,
        !decimal(n).contains('.'),
        !decimal(n).contains(':'),
        '0' <= decimal(n)[0] <= '9',
{
    lemma_decimal_value(n);
    assert(is_digit(decimal(n)[0]));
    if decimal(n).contains('.') {
        let i = choose|i: int| 0 <= i < decimal(n).len() && decimal(n)[i] == '.';
        assert(is_digit(decimal(n)[i]));
    }
    if decimal(n).contains(':') {
        let i = choose|i: int| 0 <= i < decimal(n).len() && decimal(n)[i] == ':';
        assert(is_digit(decimal(n)[i]));
    }
}

/// The text of an IPv4 address is four numbers with dots between them, and number `i` reads
/// as byte `i` of the address.
pub proof fn law_address_reads_back(o: Seq<u8>) -> (parts: Seq<Seq<char>>)
    requires
        o.len() == 4,
    ensures
        parts.len() == 4,
        forall|i: int|
            0 <= i < 4 ==> !(#[trigger] parts[i]).contains('.') && parsed_unsigned(parts[i], 255)
                == Some(o[i] as nat),
        host_text(HostView::V4(o)) == parts[0] + "."@ + parts[1] + "."@ + parts[2] + "."@ + parts[3],
{
    let parts = Seq::new(4, |i: int| decimal(o[i] as nat));
    assert forall|i: int| 0 <= i < 4 implies !(#[trigger] parts[i]).contains('.')
        && parsed_unsigned(parts[i], 255) == Some(o[i] as nat) by {
        lemma_decimal_is_plain(o[i] as nat);
        law_decimal_reads_back(o[i] as nat, 255);
    }
    parts
}

/// Two IPv4 addresses with the same text are the same.
pub proof fn law_address_text_tells_addresses_apart(o: Seq<u8>, p: Seq<u8>)
    requires
        o.len() == 4,
        p.len() == 4,
        host_text(HostView::V4(o)) == host_text(HostView::V4(p)),
    ensures
        o == p,
{
    reveal_strlit(".");
    let a = law_address_reads_back(o);
    let b = law_address_reads_back(p);
    let dot = seq!['.'];
    assert("."@ =~= dot);
    let a2 = a[2] + dot + a[3];
    let b2 = b[2] + dot + b[3];
    let a1 = a[1] + dot + a2;
    let b1 = b[1] + dot + b2;
    assert(host_text(HostView::V4(o)) =~= a[0] + dot + a1);
    assert(host_text(HostView::V4(p)) =~= b[0] + dot + b1);
    lemma_split_at_first(a[0], a1, b[0], b1, '.');
    lemma_split_at_first(a[1], a2, b[1], b2, '.');
    lemma_split_at_first(a[2], a[3], b[2], b[3], '.');
    assert forall|i: int| 0 <= i < 4 implies o[i] == p[i] by {
        assert(parsed_unsigned(a[i], 255) == Some(o[i] as nat));
        assert(parsed_unsigned(b[i], 255) == Some(p[i] as nat));
        assert(a[i] == b[i]);
    }
    assert(o =~= p);
}

/// True of the address of a server: an IPv4 address has four bytes.
pub open spec fn is_address(host: HostView) -> bool {
    host matches HostView::V4(o) ==> o.len() == 4
}

/// A URL is the scheme, the whole address, a colon and the port; the text of an IPv6
/// address stands in brackets. So two servers with the same URL have the same address and
/// the same port.
pub proof fn law_url_tells_servers_apart(host: HostView, port: nat, other: HostView, at: nat)
    requires
        is_address(host),
        is_address(other),
    ensures
        host matches HostView::V6(text) ==> url_text(host, port) == "ws://["@ + text + "]:"@
            + decimal(port),
        host matches HostView::V4(o) ==> url_text(host, port) == "ws://"@ + host_text(host) + ":"@
            + decimal(port),
        url_text(host, port) == url_text(other, at) ==> host == other && port == at,
{
    reveal_strlit("ws://");
    reveal_strlit("ws://[");
    reveal_strlit("[");
    reveal_strlit("]");
    reveal_strlit("]:");
    reveal_strlit(":");
    if let HostView::V6(text) = host {
        assert(url_text(host, port) =~= "ws://["@ + text + "]:"@ + decimal(port));
    }
    if url_text(host, port) == url_text(other, at) {
        let scheme = "ws://"@;
        let a = scheme + host_text(host);
        let b = scheme + host_text(other);
        assert(":"@ =~= seq![':']);
        lemma_decimal_is_plain(port);
        lemma_decimal_is_plain(at);
        lemma_split_at_last(a, decimal(port), b, decimal(at), ':');
        law_decimal_tells_numbers_apart(port, at);
        assert(a.skip(5) =~= host_text(host));
        assert(b.skip(5) =~= host_text(other));
        match (host, other) {
            (HostView::V4(o), HostView::V4(p)) => {
                law_address_text_tells_addresses_apart(o, p);
            },
            (HostView::V6(t), HostView::V6(u)) => {
                assert(host_text(host).subrange(1, host_text(host).len() - 1) =~= t);
                assert(host_text(other).subrange(1, host_text(other).len() - 1) =~= u);
            },
            (HostView::V4(o), HostView::V6(_)) => {
                lemma_decimal_is_plain(o[0] as nat);
                assert(host_text(host)[0] == decimal(o[0] as nat)[0]);
                assert(host_text(other)[0] == '[');
            },
            (HostView::V6(_), HostView::V4(p)) => {
                lemma_decimal_is_plain(p[0] as nat);
                assert(host_text(other)[0] == decimal(p[0] as nat)[0]);
                assert(host_text(host)[0] == '[');
            },
        }
    }
}

/// True of a name that the server announces.
pub open spec fn is_server_name(name: Seq<char>) -> bool {
    starts_with(name, INSTANCE_NAME@) && ends_with(name, SERVICE_TYPE@)
}

/// The URL of the server, when the answer is one of the server and holds an address.
pub open spec fn server_url_of(answer: AnswerView) -> Option<Seq<char>> {
    match answer.hostname {
        Some(name) if is_server_name(name) => match (answer.socket, answer.ip) {
            (Some((host, port)), _) => Some(url_text(host, port as nat)),
            (None, Some(host)) => Some(url_text(host, DEFAULT_PORT as nat)),
            (None, None) => None,
        },
        _ => None,
    }
}

/// Writes the URL of the server at `host` and `port`.
fn write_url(host: &IpHost, port: u16) -> (url: String)
    ensures
        url@ == url_text(host@, port as nat),
{
    let mut url = "ws://".to_string();
    match host {
        IpHost::V4(octets) => {
            push_decimal(&mut url, octets[0] as u64);
            url.append(".");
            push_decimal(&mut url, octets[1] as u64);
            url.append(".");
            push_decimal(&mut url, octets[2] as u64);
            url.append(".");
            push_decimal(&mut url, octets[3] as u64);
        },
        IpHost::V6(text) => {
            url.append("[");
            url.append(text.as_str());
            url.append("]");
        },
    }
    assert(url@ =~= "ws://"@ + host_text(host@));
    url.append(":");
    push_decimal(&mut url, port as u64);
    url
}

/// Gives the URL of the server, when the answer is one of the server and holds an address.
pub fn server_url(answer: &Answer) -> (out: Option<String>)
    ensures
        match out {
            Some(url) => server_url_of(answer@) == Some(url@),
            None => server_url_of(answer@) is None,
        },
{
    match &answer.hostname {
        Some(name) => {
            if !has_prefix(name.as_str(), INSTANCE_NAME) || !has_suffix(
                name.as_str(),
                SERVICE_TYPE,
            ) {
                return None;
            }
            match &answer.socket {
                Some((host, port)) => Some(write_url(host, *port)),
                None => match &answer.ip {
                    Some(host) => Some(write_url(host, DEFAULT_PORT)),
                    None => None,
                },
            }
        },
        None => None,
    }
}

/// What comes out of the search.
#[derive(Debug)]
pub enum SearchItem {
    /// An answer.
    Answer(Answer),
    /// An error in place of an answer.
    Failed,
    /// The end of the search.
    Ended,
}

/// What follows from it.
#[derive(Debug)]
pub enum SearchStep {
    /// The search goes on.
    Continue,
    /// The server was found at this URL.
    Found(String),
    /// The search is over without a server.
    NotFound(String),
}

/// What comes out of the search, as values of the specification.
pub enum SearchItemView {
    Answer(AnswerView),
    Failed,
    Ended,
}

/// What follows from it, as values of the specification.
pub enum SearchStepView {
    Continue,
    Found(Seq<char>),
    NotFound(Seq<char>),
}

impl View for SearchItem {
    type V = SearchItemView;

    open spec fn view(&self) -> SearchItemView {
        match self {
            SearchItem::Answer(answer) => SearchItemView::Answer(answer@),
            SearchItem::Failed => SearchItemView::Failed,
            SearchItem::Ended => SearchItemView::Ended,
        }
    }
}

impl View for SearchStep {
    type V = SearchStepView;

    open spec fn view(&self) -> SearchStepView {
        match self {
            SearchStep::Continue => SearchStepView::Continue,
            SearchStep::Found(url) => SearchStepView::Found(url@),
            SearchStep::NotFound(text) => SearchStepView::NotFound(text@),
        }
    }
}

/// What comes out of the search, and what follows, is seen whole.
pub proof fn law_search_is_seen_whole(item: SearchItem, step: SearchStep)
    ensures
        match item {
            SearchItem::Answer(answer) => item@ == SearchItemView::Answer(answer@),
            SearchItem::Failed => item@ is Failed,
            SearchItem::Ended => item@ is Ended,
        },
        match step {
            SearchStep::Continue => step@ is Continue,
            SearchStep::Found(url) => step@ == SearchStepView::Found(url@),
            SearchStep::NotFound(text) => step@ == SearchStepView::NotFound(text@),
        },
{
}

/// What follows from an item of the search.
pub open spec fn search_step_of(item: SearchItemView) -> SearchStepView {
    match item {
        SearchItemView::Answer(answer) => match server_url_of(answer) {
            Some(url) => SearchStepView::Found(url),
            None => SearchStepView::Continue,
        },
        SearchItemView::Failed | SearchItemView::Ended => SearchStepView::NotFound(
            "没找到裁判系统"@,
        ),
    }
}

/// Decides what follows from an item of the search.
pub fn search_step(item: &SearchItem) -> (step: SearchStep)
    ensures
        step@ == search_step_of(item@),
{
    match item {
        SearchItem::Answer(answer) => match server_url(answer) {
            Some(url) => SearchStep::Found(url),
            None => SearchStep::Continue,
        },
        SearchItem::Failed => SearchStep::NotFound("没找到裁判系统".to_string()),
        SearchItem::Ended => SearchStep::NotFound("没找到裁判系统".to_string()),
    }
}

/// How the search through `items` ends: with the first item that does not let it go on.
pub open spec fn search_outcome(items: Seq<SearchItemView>) -> SearchStepView
    decreases items.len(),
{
    if items.len() == 0 {
        SearchStepView::Continue
    } else {
        match search_step_of(items[0]) {
            SearchStepView::Continue => search_outcome(items.drop_first()),
            step => step,
        }
    }
}

/// True when the answer at `k` is the first that leads to a server, which is at `url`, and
/// nothing but answers stands before it.
pub open spec fn is_first_server(items: Seq<SearchItemView>, url: Seq<char>, k: int) -> bool {
    &&& 0 <= k < items.len()
    &&& items[k] matches SearchItemView::Answer(answer)
    &&& server_url_of(answer) == Some(url)
    &&& forall|j: int|
        0 <= j < k ==> (#[trigger] items[j] matches SearchItemView::Answer(earlier)
            && server_url_of(earlier) is None)
}

/// The search finds the first answer of the server that holds an address, and finds it
/// only if no error and no end comes before.
pub proof fn law_search_finds_the_first_server(items: Seq<SearchItemView>, url: Seq<char>)
    ensures
        search_outcome(items) == SearchStepView::Found(url) <==> exists|k: int| #[trigger]
            is_first_server(items, url, k),
    decreases items.len(),
{
    if items.len() > 0 {
        let rest = items.drop_first();
        law_search_finds_the_first_server(rest, url);
        if search_step_of(items[0]) is Continue {
            if search_outcome(rest) == SearchStepView::Found(url) {
                let k = choose|k: int| #[trigger] is_first_server(rest, url, k);
                assert forall|j: int| 0 <= j < k + 1 implies (
                #[trigger] items[j] matches SearchItemView::Answer(earlier) && server_url_of(
                    earlier,
                ) is None) by {
                    if j > 0 {
                        assert(items[j] == rest[j - 1]);
                    }
                }
                assert(is_first_server(items, url, k + 1));
            }
            if exists|k: int| #[trigger] is_first_server(items, url, k) {
                let k = choose|k: int| #[trigger] is_first_server(items, url, k);
                assert forall|j: int| 0 <= j < k - 1 implies (
                #[trigger] rest[j] matches SearchItemView::Answer(earlier) && server_url_of(
                    earlier,
                ) is None) by {
                    assert(rest[j] == items[j + 1]);
                }
                assert(is_first_server(rest, url, k - 1));
            }
        } else if search_outcome(items) == SearchStepView::Found(url) {
            assert(is_first_server(items, url, 0));
        }
    }
}

/// The search fails exactly when an error or the end comes and every item before it was an
/// answer that leads to no server.
pub proof fn law_search_fails_at_an_error_or_the_end(items: Seq<SearchItemView>)
    ensures
        search_outcome(items) is NotFound <==> exists|k: int|
            0 <= k < items.len() && !(#[trigger] items[k] is Answer) && forall|j: int|
                0 <= j < k ==> (#[trigger] items[j] matches SearchItemView::Answer(earlier)
                    && server_url_of(earlier) is None),
        search_outcome(items) matches SearchStepView::NotFound(text) ==> text == "没找到裁判系统"@,
    decreases items.len(),
{
    if items.len() > 0 {
        let rest = items.drop_first();
        law_search_fails_at_an_error_or_the_end(rest);
        if search_step_of(items[0]) is Continue {
            if search_outcome(rest) is NotFound {
                let k = choose|k: int|
                    0 <= k < rest.len() && !(#[trigger] rest[k] is Answer) && forall|j: int|
                        0 <= j < k ==> (#[trigger] rest[j] matches SearchItemView::Answer(earlier)
                            && server_url_of(earlier) is None);
                assert(items[k + 1] == rest[k]);
                assert forall|j: int| 0 <= j < k + 1 implies (
                #[trigger] items[j] matches SearchItemView::Answer(earlier) && server_url_of(
                    earlier,
                ) is None) by {
                    if j > 0 {
                        assert(items[j] == rest[j - 1]);
                    }
                }
            }
            if exists|k: int|
                0 <= k < items.len() && !(#[trigger] items[k] is Answer) && forall|j: int|
                    0 <= j < k ==> (#[trigger] items[j] matches SearchItemView::Answer(earlier)
                        && server_url_of(earlier) is None) {
                let k = choose|k: int|
                    0 <= k < items.len() && !(#[trigger] items[k] is Answer) && forall|j: int|
                        0 <= j < k ==> (#[trigger] items[j] matches SearchItemView::Answer(earlier)
                            && server_url_of(earlier) is None);
                assert(rest[k - 1] == items[k]);
                assert forall|j: int| 0 <= j < k - 1 implies (
                #[trigger] rest[j] matches SearchItemView::Answer(earlier) && server_url_of(
                    earlier,
                ) is None) by {
                    assert(rest[j] == items[j + 1]);
                }
            }
        }
    }
}

/// An answer leads to the server exactly when its name starts with that of the server, ends
/// with the service, and an address is there; the announced port counts where there is one,
/// else the port is 3000.
pub proof fn law_answer_leads_to_the_named_server(answer: AnswerView, name: Seq<char>)
    requires
        answer.hostname == Some(name),
    ensures
        ({
            let named = (exists|rest: Seq<char>|
                name == #[trigger] ("RadioMaster Referee System"@ + rest)) && (exists|
                front: Seq<char>,
            |
                name == #[trigger] (front + "_http._tcp.local"@));
            &&& !named ==> server_url_of(answer) is None
            &&& named && answer.socket is None && answer.ip is None ==> server_url_of(
                answer,
            ) is None
            &&& named ==> (answer.socket matches Some((host, port)) ==> server_url_of(answer)
                == Some(url_text(host, port as nat)))
            &&& named && answer.socket is None ==> (answer.ip matches Some(host) ==> server_url_of(
                answer,
            ) == Some(url_text(host, 3000)))
        }),
{
    law_text_starts_and_ends(name, INSTANCE_NAME@);
    law_text_starts_and_ends(name, SERVICE_TYPE@);
}

/// An answer without a name leads to no server.
pub proof fn law_nameless_answer_is_passed_over(answer: AnswerView)
    requires
        answer.hostname is None,
    ensures
        server_url_of(answer) is None,
{
}

/// The port that the server announces is preferred to the default one.
pub proof fn law_announced_port_is_used(
    name: Seq<char>,
    host: HostView,
    port: u16,
    ip: Option<HostView>,
)
    requires
        is_server_name(name),
    ensures
        server_url_of(
            (AnswerView { hostname: Some(name), socket: Some((host, port)), ip }),
        ) == Some(url_text(host, port as nat)),
{
}

/// What is said when the search failed for `reason`.
pub open spec fn retry_text(reason: Seq<char>) -> Seq<char> {
    "搜索裁判系统服务器失败："@ + reason + "，将在 "@ + decimal(SCAN_INTERVAL_SECS as nat)
        + " 秒后重试..."@
}

/// What is said holds the whole reason and the seconds until the search starts again.
pub proof fn law_retry_tells_the_reason(reason: Seq<char>)
    ensures
        retry_text(reason) == "搜索裁判系统服务器失败："@ + reason + "，将在 5 秒后重试..."@,
{
    reveal_strlit("，将在 5 秒后重试...");
    reveal_strlit("，将在 ");
    reveal_strlit(" 秒后重试...");
    assert(decimal(5) =~= seq!['5']);
    assert(retry_text(reason) =~= "搜索裁判系统服务器失败："@ + reason + "，将在 5 秒后重试..."@);
}

/// What follows from the end of a search.
#[derive(Debug)]
pub enum RetryStep {
    /// The server is at this URL.
    Connect(String),
    /// The text is shown, and the search starts again after a while.
    Retry { text: String, delay_secs: u64 },
}

/// Decides what follows from the end of a search: a failed one is repeated without end.
pub fn retry_step(outcome: Result<String, String>) -> (step: RetryStep)
    ensures
        match outcome {
            Ok(url) => step matches RetryStep::Connect(to) && to@ == url@,
            Err(reason) => step matches RetryStep::Retry { text, delay_secs } && text@
                == retry_text(reason@) && delay_secs == SCAN_INTERVAL_SECS,
        },
{
    match outcome {
        Ok(url) => RetryStep::Connect(url),
        Err(reason) => {
            let mut text = "搜索裁判系统服务器失败：".to_string();
            text.append(reason.as_str());
            text.append("，将在 ");
            push_decimal(&mut text, SCAN_INTERVAL_SECS);
            text.append(" 秒后重试...");
            RetryStep::Retry { text, delay_secs: SCAN_INTERVAL_SECS }
        },
    }
}

/// The URL of the websocket of the device `short_sn` on the server.
pub open spec fn device_url(server_url: Seq<char>, short_sn: Seq<char>) -> Seq<char> {
    server_url + "/ws/devices/"@ + short_sn
}

/// The URL of the websocket of a device starts with the whole URL of the server, and the
/// whole short serial number can be read back from behind `/ws/devices/`. So on one server two
/// devices never have the same URL.
pub proof fn law_device_url_names_the_device(
    server_url: Seq<char>,
    short_sn: Seq<char>,
    other: Seq<char>,
)
    ensures
        ({
            let url = device_url(server_url, short_sn);
            let front = server_url + "/ws/devices/"@;
            &&& url.take(front.len() as int) == front
            &&& url.len() == front.len() + short_sn.len()
            &&& url.skip(front.len() as int) == short_sn
        }),
        device_url(server_url, short_sn) == device_url(server_url, other) ==> short_sn == other,
{
    let front = server_url + "/ws/devices/"@;
    let url = device_url(server_url, short_sn);
    assert(url.take(front.len() as int) =~= front);
    assert(url.skip(front.len() as int) =~= short_sn);
    assert(device_url(server_url, other).skip(front.len() as int) =~= other);
}

/// Writes the URL of the websocket of a device.
pub fn device_ws_url(server_url: &str, short_sn: &str) -> (url: String)
    ensures
        url@ == device_url(server_url@, short_sn@),
{
    let mut url = server_url.to_string();
    url.append("/ws/devices/");
    url.append(short_sn);
    url
}

} // verus!
