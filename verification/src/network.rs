//! Which of this machine's network addresses a session uses, and which it
//! shows to the person joining.

use crate::signaling_client;
use crate::text;
use crate::text_order;
use vstd::prelude::*;
use vstd::string::*;

verus! {

/// The port that the embedded signaling server listens on.
pub const SIGNALING_PORT: u16 = 9876;

/// The address of one network interface. Only IPv4 is ever used.
#[derive(Debug, Clone, Copy)]
pub enum InterfaceAddress {
    V4(u8, u8, u8, u8),
    V6,
}

/// `a.b.c.d`.
pub open spec fn ipv4_text(a: u8, b: u8, c: u8, d: u8) -> Seq<char> {
    text::decimal_text(a as nat) + "."@ + text::decimal_text(b as nat) + "."@ + text::decimal_text(
        c as nat,
    ) + "."@ + text::decimal_text(d as nat)
}

impl InterfaceAddress {
    /// An IPv4 address outside 169.254.0.0/16, which an adapter gives itself
    /// when it finds no network.
    pub open spec fn is_usable(self) -> bool {
        match self {
            InterfaceAddress::V4(a, b, _, _) => !(a == 169 && b == 254),
            InterfaceAddress::V6 => false,
        }
    }

    /// A usable address outside 127.0.0.0/8, so that others can reach it.
    pub open spec fn is_reachable(self) -> bool {
        self.is_usable() && match self {
            InterfaceAddress::V4(a, _, _, _) => a != 127,
            InterfaceAddress::V6 => false,
        }
    }

    /// Where a session binds on a usable address: any free port.
    pub open spec fn bind_text(self) -> Option<Seq<char>> {
        match self {
            InterfaceAddress::V4(a, b, c, d) => if self.is_usable() {
                Some(ipv4_text(a, b, c, d) + ":0"@)
            } else {
                None
            },
            InterfaceAddress::V6 => None,
        }
    }

    /// The URL of the signaling server on a reachable address.
    pub open spec fn url_text(self) -> Option<Seq<char>> {
        match self {
            InterfaceAddress::V4(a, b, c, d) => if self.is_reachable() {
                Some(
                    "ws://"@ + ipv4_text(a, b, c, d) + ":"@ + text::decimal_text(
                        SIGNALING_PORT as nat,
                    ),
                )
            } else {
                None
            },
            InterfaceAddress::V6 => None,
        }
    }
}

/// Writes an IPv4 address with dots.
pub fn ipv4(a: u8, b: u8, c: u8, d: u8) -> (s: String)
    ensures
        s@ == ipv4_text(a, b, c, d),
{
    text::decimal(a as u64).concat(".").concat(text::decimal(b as u64).as_str()).concat(".").concat(
        text::decimal(c as u64).as_str(),
    ).concat(".").concat(text::decimal(d as u64).as_str())
}

/// Where a session binds on each interface, if it does.
pub open spec fn bind_texts(interfaces: Seq<InterfaceAddress>) -> Seq<Option<Seq<char>>> {
    interfaces.map_values(|address: InterfaceAddress| address.bind_text())
}

/// The URL of the signaling server on each interface, if it has one.
pub open spec fn url_texts(interfaces: Seq<InterfaceAddress>) -> Seq<Option<Seq<char>>> {
    interfaces.map_values(|address: InterfaceAddress| address.url_text())
}

/// Whether a list holds each text there is among `shown` once, in order.
pub open spec fn lists_all(list: Seq<Seq<char>>, shown: Seq<Option<Seq<char>>>) -> bool {
    &&& text_order::in_order(list)
    &&& forall|t: Seq<char>| #[trigger] list.contains(t) <==> shown.contains(Some(t))
}

/// Whether a list holds each address that a session can use once, in order.
/// With none it holds the wildcard: better to try that than nothing at all.
pub open spec fn lists_usable_addrs(
    list: Seq<Seq<char>>,
    interfaces: Seq<InterfaceAddress>,
) -> bool {
    if exists|i: int| 0 <= i < interfaces.len() && (#[trigger] interfaces[i]).is_usable() {
        lists_all(list, bind_texts(interfaces))
    } else {
        list == seq!["0.0.0.0:0"@]
    }
}

/// Whether a list holds each URL of the signaling server once, in order.
pub open spec fn lists_signaling_urls(
    list: Seq<Seq<char>>,
    interfaces: Seq<InterfaceAddress>,
) -> bool {
    lists_all(list, url_texts(interfaces))
}

/// Puts one more text into a list of all that was shown so far.
fn list_one_more(list: &mut Vec<String>, next: Option<String>, shown: Ghost<Seq<Option<Seq<char>>>>)
    requires
        lists_all(text_order::texts(old(list)@), shown@),
    ensures
        lists_all(
            text_order::texts(final(list)@),
            shown@.push(signaling_client::optional_text(next)),
        ),
{
    let ghost last: Option<Seq<char>> = signaling_client::optional_text(next);
    proof {
        let now = shown@.push(last);
        assert forall|t: Seq<char>| now.contains(Some(t)) <==> shown@.contains(Some(t)) || last
            == Some(t) by {
            if shown@.contains(Some(t)) {
                let k = choose|k: int| 0 <= k < shown@.len() && shown@[k] == Some(t);
                assert(now[k] == Some(t));
            }
            if last == Some(t) {
                assert(now[shown@.len() as int] == Some(t));
            }
            if now.contains(Some(t)) {
                let k = choose|k: int| 0 <= k < now.len() && now[k] == Some(t);
                if k < shown@.len() {
                    assert(shown@[k] == Some(t));
                }
            }
        }
    }
    match next {
        Some(s) => text_order::insert_text(list, s),
        None => {},
    }
}

/// The local addresses worth gathering ICE candidates from, given those of
/// every interface: all but the link-local ones, since one dead interface can
/// hang the gathering for good.
pub fn usable_local_addrs(interfaces: &Vec<InterfaceAddress>) -> (addrs: Vec<String>)
    ensures
        lists_usable_addrs(text_order::texts(addrs@), interfaces@),
{
    let mut addrs: Vec<String> = Vec::new();
    let mut i: usize = 0;
    while i < interfaces.len()
        invariant
            i <= interfaces@.len(),
            lists_all(text_order::texts(addrs@), bind_texts(interfaces@.take(i as int))),
        decreases interfaces@.len() - i,
    {
        let next: Option<String> = match interfaces[i] {
            InterfaceAddress::V4(a, b, c, d) => if !(a == 169 && b == 254) {
                Some(ipv4(a, b, c, d).concat(":0"))
            } else {
                None
            },
            InterfaceAddress::V6 => None,
        };
        let ghost shown = bind_texts(interfaces@.take(i as int));
        assert(bind_texts(interfaces@.take(i + 1)) =~= shown.push(
            interfaces@[i as int].bind_text(),
        ));
        list_one_more(&mut addrs, next, Ghost(shown));
        i = i + 1;
    }
    assert(interfaces@.take(i as int) =~= interfaces@);
    proof {
        lemma_listed_addresses(text_order::texts(addrs@), interfaces@);
    }
    if addrs.len() == 0 {
        addrs.push("0.0.0.0:0".to_owned());
        assert(text_order::texts(addrs@) =~= seq!["0.0.0.0:0"@]);
    }
    addrs
}

proof fn lemma_listed_addresses(list: Seq<Seq<char>>, interfaces: Seq<InterfaceAddress>)
    requires
        lists_all(list, bind_texts(interfaces)),
    ensures
        list.len() > 0 <==> exists|i: int|
            0 <= i < interfaces.len() && (#[trigger] interfaces[i]).is_usable(),
{
    let shown = bind_texts(interfaces);
    if list.len() > 0 {
        assert(list.contains(list[0]));
        assert(shown.contains(Some(list[0])));
        let k = choose|k: int| 0 <= k < shown.len() && shown[k] == Some(list[0]);
        assert(interfaces[k].is_usable());
    }
    if exists|i: int| 0 <= i < interfaces.len() && (#[trigger] interfaces[i]).is_usable() {
        let i = choose|i: int| 0 <= i < interfaces.len() && (#[trigger] interfaces[i]).is_usable();
        assert(shown[i] == interfaces[i].bind_text());
        assert(shown.contains(Some(interfaces[i].bind_text()->0)));
        assert(list.contains(interfaces[i].bind_text()->0));
    }
}

/// Every address of the embedded signaling server that someone else might
/// reach, given those of every interface. Several are normal; the person
/// joining takes whichever one works.
pub fn local_signaling_urls(interfaces: &Vec<InterfaceAddress>) -> (urls: Vec<String>)
    ensures
        lists_signaling_urls(text_order::texts(urls@), interfaces@),
{
    let mut urls: Vec<String> = Vec::new();
    let mut i: usize = 0;
    while i < interfaces.len()
        invariant
            i <= interfaces@.len(),
            lists_all(text_order::texts(urls@), url_texts(interfaces@.take(i as int))),
        decreases interfaces@.len() - i,
    {
        let next: Option<String> = match interfaces[i] {
            InterfaceAddress::V4(a, b, c, d) => if !(a == 169 && b == 254) && a != 127 {
                Some(
                    "ws://".to_owned().concat(ipv4(a, b, c, d).as_str()).concat(":").concat(
                        text::decimal(SIGNALING_PORT as u64).as_str(),
                    ),
                )
            } else {
                None
            },
            InterfaceAddress::V6 => None,
        };
        let ghost shown = url_texts(interfaces@.take(i as int));
        assert(url_texts(interfaces@.take(i + 1)) =~= shown.push(interfaces@[i as int].url_text()));
        list_one_more(&mut urls, next, Ghost(shown));
        i = i + 1;
    }
    assert(interfaces@.take(i as int) =~= interfaces@);
    urls
}

/// There is always an address to gather from.
pub proof fn law_some_address_is_always_tried(
    list: Seq<Seq<char>>,
    interfaces: Seq<InterfaceAddress>,
)
    requires
        lists_usable_addrs(list, interfaces),
    ensures
        list.len() > 0,
{
    if exists|i: int| 0 <= i < interfaces.len() && (#[trigger] interfaces[i]).is_usable() {
        lemma_listed_addresses(list, interfaces);
    }
}

/// What is shown of the interfaces of one list is shown of those of another
/// that has the same ones.
proof fn lemma_same_shown(
    a: Seq<InterfaceAddress>,
    b: Seq<InterfaceAddress>,
    show: spec_fn(InterfaceAddress) -> Option<Seq<char>>,
)
    requires
        forall|x: InterfaceAddress| a.contains(x) ==> b.contains(x),
    ensures
        forall|t: Option<Seq<char>>| #[trigger]
            a.map_values(show).contains(t) ==> b.map_values(show).contains(t),
{
    assert forall|t: Option<Seq<char>>| #[trigger]
        a.map_values(show).contains(t) implies b.map_values(show).contains(t) by {
        let i = choose|i: int| 0 <= i < a.len() && a.map_values(show)[i] == t;
        assert(a.contains(a[i]));
        assert(b.contains(a[i]));
        let j = choose|j: int| 0 <= j < b.len() && b[j] == a[i];
        assert(b.map_values(show)[j] == t);
    }
}

proof fn lemma_same_list(
    list_a: Seq<Seq<char>>,
    list_b: Seq<Seq<char>>,
    a: Seq<InterfaceAddress>,
    b: Seq<InterfaceAddress>,
    show: spec_fn(InterfaceAddress) -> Option<Seq<char>>,
)
    requires
        forall|x: InterfaceAddress| a.contains(x) <==> b.contains(x),
        lists_all(list_a, a.map_values(show)),
        lists_all(list_b, b.map_values(show)),
    ensures
        list_a == list_b,
{
    lemma_same_shown(a, b, show);
    lemma_same_shown(b, a, show);
    assert forall|t: Seq<char>| list_a.contains(t) <==> list_b.contains(t) by {
        assert(a.map_values(show).contains(Some(t)) <==> b.map_values(show).contains(Some(t)));
    }
    text_order::lemma_one_order(list_a, list_b);
}

/// The addresses depend on which interfaces there are, not on the order in
/// which the system lists them or on how often it lists one.
pub proof fn law_addresses_depend_on_the_set_of_interfaces(
    a: Seq<InterfaceAddress>,
    b: Seq<InterfaceAddress>,
    list_a: Seq<Seq<char>>,
    list_b: Seq<Seq<char>>,
)
    requires
        forall|x: InterfaceAddress| a.contains(x) <==> b.contains(x),
        lists_usable_addrs(list_a, a),
        lists_usable_addrs(list_b, b),
    ensures
        list_a == list_b,
{
    assert forall|i: int| 0 <= i < a.len() && (#[trigger] a[i]).is_usable() implies exists|j: int|
        0 <= j < b.len() && (#[trigger] b[j]).is_usable() by {
        assert(a.contains(a[i]));
        assert(b.contains(a[i]));
    }
    assert forall|i: int| 0 <= i < b.len() && (#[trigger] b[i]).is_usable() implies exists|j: int|
        0 <= j < a.len() && (#[trigger] a[j]).is_usable() by {
        assert(b.contains(b[i]));
        assert(a.contains(b[i]));
    }
    if exists|i: int| 0 <= i < a.len() && (#[trigger] a[i]).is_usable() {
        lemma_same_list(
            list_a,
            list_b,
            a,
            b,
            |address: InterfaceAddress| address.bind_text(),
        );
    }
}

/// The URLs likewise depend on which interfaces there are alone.
pub proof fn law_urls_depend_on_the_set_of_interfaces(
    a: Seq<InterfaceAddress>,
    b: Seq<InterfaceAddress>,
    list_a: Seq<Seq<char>>,
    list_b: Seq<Seq<char>>,
)
    requires
        forall|x: InterfaceAddress| a.contains(x) <==> b.contains(x),
        lists_signaling_urls(list_a, a),
        lists_signaling_urls(list_b, b),
    ensures
        list_a == list_b,
{
    lemma_same_list(list_a, list_b, a, b, |address: InterfaceAddress| address.url_text());
}

/// An address is written as its four numbers, in order, with dots between.
pub proof fn law_an_address_is_four_numbers_with_dots(a: u8, b: u8, c: u8, d: u8)
    ensures
        exists|w: Seq<char>, x: Seq<char>, y: Seq<char>, z: Seq<char>|
            {
                &&& #[trigger] (w + "."@ + x + "."@ + y + "."@ + z) == ipv4_text(a, b, c, d)
                &&& text::is_numeral(w) && text::decimal_value(w) == a
                &&& text::is_numeral(x) && text::decimal_value(x) == b
                &&& text::is_numeral(y) && text::decimal_value(y) == c
                &&& text::is_numeral(z) && text::decimal_value(z) == d
            },
{
    text::law_a_numeral_stands_for_its_number(a as nat);
    text::law_a_numeral_stands_for_its_number(b as nat);
    text::law_a_numeral_stands_for_its_number(c as nat);
    text::law_a_numeral_stands_for_its_number(d as nat);
    let w = text::decimal_text(a as nat);
    let x = text::decimal_text(b as nat);
    let y = text::decimal_text(c as nat);
    let z = text::decimal_text(d as nat);
    assert(w + "."@ + x + "."@ + y + "."@ + z == ipv4_text(a, b, c, d));
}

/// A session binds to every IPv4 address but the link-local ones, on any free
/// port, and to no other address.
pub proof fn law_all_but_link_local_addresses_are_bound(a: u8, b: u8, c: u8, d: u8)
    ensures
        a == 169 && b == 254 ==> InterfaceAddress::V4(a, b, c, d).bind_text() is None,
        a != 169 || b != 254 ==> InterfaceAddress::V4(a, b, c, d).bind_text() == Some(
            ipv4_text(a, b, c, d) + ":0"@,
        ),
        InterfaceAddress::V6.bind_text() is None,
{
}

/// Every IPv4 address is shown but the link-local ones and those that mean
/// this machine itself, as a URL with the port of the signaling server.
pub proof fn law_all_that_others_can_reach_is_shown(a: u8, b: u8, c: u8, d: u8)
    ensures
        a == 127 || (a == 169 && b == 254) ==> InterfaceAddress::V4(a, b, c, d).url_text() is None,
        a != 127 && (a != 169 || b != 254) ==> InterfaceAddress::V4(a, b, c, d).url_text() == Some(
            "ws://"@ + ipv4_text(a, b, c, d) + ":9876"@,
        ),
        InterfaceAddress::V6.url_text() is None,
{
    reveal_with_fuel(text::decimal_text, 5);
    reveal_strlit(":");
    reveal_strlit(":9876");
    let port = text::decimal_text(9876);
    assert(port =~= seq!['9', '8', '7', '6']);
    assert(":"@ + port =~= ":9876"@);
    assert("ws://"@ + ipv4_text(a, b, c, d) + ":"@ + port =~= "ws://"@ + ipv4_text(a, b, c, d) + (
    ":"@ + port));
}

/// Every address that a session can use is listed, whatever else there is.
pub proof fn law_every_usable_address_is_listed(
    list: Seq<Seq<char>>,
    interfaces: Seq<InterfaceAddress>,
    a: u8,
    b: u8,
    c: u8,
    d: u8,
)
    requires
        lists_usable_addrs(list, interfaces),
        interfaces.contains(InterfaceAddress::V4(a, b, c, d)),
        a != 169 || b != 254,
    ensures
        list.contains(ipv4_text(a, b, c, d) + ":0"@),
{
    let i = choose|i: int|
        0 <= i < interfaces.len() && interfaces[i] == InterfaceAddress::V4(a, b, c, d);
    assert(interfaces[i].is_usable());
    assert(bind_texts(interfaces)[i] == Some(ipv4_text(a, b, c, d) + ":0"@));
    assert(bind_texts(interfaces).contains(Some(ipv4_text(a, b, c, d) + ":0"@)));
}

/// Every address on the list is one that a session can use, or the wildcard on
/// its own where there is none; and the list is in order, with nothing on it
/// twice.
pub proof fn law_only_usable_addresses_are_listed(
    list: Seq<Seq<char>>,
    interfaces: Seq<InterfaceAddress>,
    k: int,
)
    requires
        lists_usable_addrs(list, interfaces),
        0 <= k < list.len(),
    ensures
        list == seq!["0.0.0.0:0"@] || exists|a: u8, b: u8, c: u8, d: u8|
            {
                &&& #[trigger] interfaces.contains(InterfaceAddress::V4(a, b, c, d))
                &&& a != 169 || b != 254
                &&& list[k] == ipv4_text(a, b, c, d) + ":0"@
            },
        (forall|a: u8, b: u8, c: u8, d: u8| #[trigger]
            interfaces.contains(InterfaceAddress::V4(a, b, c, d)) ==> a == 169 && b == 254) ==> list
            == seq!["0.0.0.0:0"@],
        forall|j: int| 0 <= j < k ==> text_order::precedes(#[trigger] list[j], list[k]),
{
    let some = exists|i: int| 0 <= i < interfaces.len() && (#[trigger] interfaces[i]).is_usable();
    if some {
        assert(list.contains(list[k]));
        let shown = bind_texts(interfaces);
        assert(shown.contains(Some(list[k])));
        let i = choose|i: int| 0 <= i < shown.len() && shown[i] == Some(list[k]);
        assert(interfaces.contains(interfaces[i]));
        match interfaces[i] {
            InterfaceAddress::V4(a, b, c, d) => {
                assert(interfaces.contains(InterfaceAddress::V4(a, b, c, d)));
                assert(list[k] == ipv4_text(a, b, c, d) + ":0"@);
            },
            InterfaceAddress::V6 => {},
        }
    }
}

/// Every URL that others can reach is listed, and nothing else; the list is in
/// order, with nothing on it twice.
pub proof fn law_exactly_the_reachable_urls_are_listed(
    list: Seq<Seq<char>>,
    interfaces: Seq<InterfaceAddress>,
    url: Seq<char>,
)
    requires
        lists_signaling_urls(list, interfaces),
    ensures
        list.contains(url) <==> exists|a: u8, b: u8, c: u8, d: u8|
            {
                &&& #[trigger] interfaces.contains(InterfaceAddress::V4(a, b, c, d))
                &&& a != 127
                &&& a != 169 || b != 254
                &&& url == "ws://"@ + ipv4_text(a, b, c, d) + ":9876"@
            },
        forall|j: int, k: int|
            0 <= j < k < list.len() ==> text_order::precedes(#[trigger] list[j], #[trigger] list[k]),
{
    let shown = url_texts(interfaces);
    if list.contains(url) {
        assert(shown.contains(Some(url)));
        let i = choose|i: int| 0 <= i < shown.len() && shown[i] == Some(url);
        assert(interfaces.contains(interfaces[i]));
        match interfaces[i] {
            InterfaceAddress::V4(a, b, c, d) => {
                law_all_that_others_can_reach_is_shown(a, b, c, d);
                assert(interfaces.contains(InterfaceAddress::V4(a, b, c, d)));
            },
            InterfaceAddress::V6 => {},
        }
    }
    if exists|a: u8, b: u8, c: u8, d: u8|
        {
            &&& #[trigger] interfaces.contains(InterfaceAddress::V4(a, b, c, d))
            &&& a != 127
            &&& a != 169 || b != 254
            &&& url == "ws://"@ + ipv4_text(a, b, c, d) + ":9876"@
        } {
        let (a, b, c, d) = choose|a: u8, b: u8, c: u8, d: u8|
            {
                &&& #[trigger] interfaces.contains(InterfaceAddress::V4(a, b, c, d))
                &&& a != 127
                &&& a != 169 || b != 254
                &&& url == "ws://"@ + ipv4_text(a, b, c, d) + ":9876"@
            };
        law_all_that_others_can_reach_is_shown(a, b, c, d);
        let i = choose|i: int|
            0 <= i < interfaces.len() && interfaces[i] == InterfaceAddress::V4(a, b, c, d);
        assert(shown[i] == Some(url));
        assert(shown.contains(Some(url)));
    }
}

} // verus!
