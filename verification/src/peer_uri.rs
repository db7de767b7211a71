//! How an accepted peer is listed.
use vstd::prelude::*;

use crate::ip::{IpAddr, SocketAddr};
use crate::text;

verus! {

/// A network interface: its number, where it has one, and its name.
#[derive(Debug)]
pub struct Interface {
    pub index: Option<u32>,
    pub name: String,
}

/// The name of the first interface of a number.
pub open spec fn interface_name(interfaces: Seq<Interface>, scope_id: u32) -> Option<Seq<char>>
    decreases interfaces.len(),
{
    if interfaces.len() == 0 {
        None
    } else if interfaces[0].index == Some(scope_id) {
        Some(interfaces[0].name@)
    } else {
        interface_name(interfaces.drop_first(), scope_id)
    }
}

/// The name of the first of `interfaces` whose number is `scope_id`.
pub fn scope_id_to_name(interfaces: &[Interface], scope_id: u32) -> (r: Option<String>)
    ensures
        text::option_text(r) == interface_name(interfaces@, scope_id),
{
    let mut i: usize = 0;
    assert(interfaces@.skip(0) =~= interfaces@);
    while i < interfaces.len()
        invariant
            i <= interfaces@.len(),
            interface_name(interfaces@, scope_id) == interface_name(
                interfaces@.skip(i as int),
                scope_id,
            ),
        decreases interfaces@.len() - i,
    {
        proof {
            let rest = interfaces@.skip(i as int);
            assert(rest[0] == interfaces@[i as int]);
            assert(rest.drop_first() =~= interfaces@.skip(i + 1));
        }
        if let Some(index) = interfaces[i].index {
            if index == scope_id {
                return Some(interfaces[i].name.clone());
            }
        }
        i = i + 1;
    }
    None
}

/// How a peer is listed: its scheme and its address. The zone of a scoped IPv6
/// address is named after its interface, where there is one of its number.
pub open spec fn peer_uri(
    scheme: Seq<char>,
    addr: SocketAddr,
    addr_text: Seq<char>,
    ip_text: Seq<char>,
    interfaces: Seq<Interface>,
) -> Seq<char> {
    let name = interface_name(interfaces, addr.scope_id);
    if addr.ip is V6 && addr.scope_id != 0 && name is Some {
        scheme + "://["@ + ip_text + "%"@ + name->0 + "]:"@ + text::decimal(addr.port as nat)
    } else {
        scheme + "://"@ + addr_text
    }
}

/// Format a peer URI for display, resolving numeric IPv6 scope IDs to interface
/// names. `addr_text` is the text of the address with its port, and `ip_text`
/// that of the IP address alone.
pub fn format_peer_uri(
    scheme: &str,
    addr: &SocketAddr,
    addr_text: &str,
    ip_text: &str,
    interfaces: &[Interface],
) -> (r: String)
    ensures
        r@ == peer_uri(scheme@, *addr, addr_text@, ip_text@, interfaces@),
{
    let mut uri = scheme.to_owned();
    if let IpAddr::V6(_) = addr.ip {
        if addr.scope_id != 0 {
            if let Some(name) = scope_id_to_name(interfaces, addr.scope_id) {
                uri.append("://[");
                uri.append(ip_text);
                uri.append("%");
                uri.append(name.as_str());
                uri.append("]:");
                text::push_decimal(&mut uri, addr.port as u64);
                return uri;
            }
        }
    }
    uri.append("://");
    uri.append(addr_text);
    uri
}

// ---------------------------------------------------------------------------
// Laws
// ---------------------------------------------------------------------------

/// An interface is found by its number, the first one where there are several,
/// wherever it stands; a number that none has finds nothing.
pub proof fn the_first_interface_of_a_number_is_found(
    before: Seq<Interface>,
    i: Interface,
    after: Seq<Interface>,
    scope_id: u32,
)
    requires
        forall|k: int| 0 <= k < before.len() ==> (#[trigger] before[k]).index != Some(scope_id),
        i.index == Some(scope_id),
    ensures
        interface_name(before + seq![i] + after, scope_id) == Some(i.name@),
        interface_name(before, scope_id) is None,
    decreases before.len(),
{
    let all = before + seq![i] + after;
    if before.len() == 0 {
        assert(all[0] == i);
    } else {
        let tail = before.drop_first();
        assert forall|k: int| 0 <= k < tail.len() implies (#[trigger] tail[k]).index != Some(
            scope_id,
        ) by {
            assert(tail[k] == before[k + 1]);
        }
        the_first_interface_of_a_number_is_found(tail, i, after, scope_id);
        assert(all[0] == before[0]);
        assert(all.drop_first() =~= tail + seq![i] + after);
    }
}

/// A peer is listed with its scheme in front of its address as that is written,
/// but that an IPv6 address with a zone whose interface is known has the name
/// of the interface behind a `%`, in brackets, and then its port.
pub proof fn peers_are_listed_by_their_address(
    scheme: Seq<char>,
    addr: SocketAddr,
    addr_text: Seq<char>,
    ip_text: Seq<char>,
    interfaces: Seq<Interface>,
)
    ensures
        ({
            let uri = peer_uri(scheme, addr, addr_text, ip_text, interfaces);
            let name = interface_name(interfaces, addr.scope_id);
            let named = addr.ip is V6 && addr.scope_id != 0 && name is Some;
            &&& text::starts_with(uri, scheme + seq![':', '/', '/'])
            &&& !named ==> uri.skip(scheme.len() as int + 3) == addr_text
            &&& named ==> uri.skip(scheme.len() as int + 3) == seq!['['] + ip_text + seq!['%']
                + name->0 + seq![']', ':'] + text::decimal(addr.port as nat)
        }),
{
    reveal_strlit("://[");
    reveal_strlit("://");
    reveal_strlit("%");
    reveal_strlit("]:");
    let start = scheme + seq![':', '/', '/'];
    let n = scheme.len() as int + 3;
    let name = interface_name(interfaces, addr.scope_id);
    let uri = peer_uri(scheme, addr, addr_text, ip_text, interfaces);
    let rest = if addr.ip is V6 && addr.scope_id != 0 && name is Some {
        seq!['['] + ip_text + seq!['%'] + name->0 + seq![']', ':'] + text::decimal(
            addr.port as nat,
        )
    } else {
        addr_text
    };
    assert("://"@ =~= seq![':', '/', '/']);
    assert("://["@ =~= seq![':', '/', '/'] + seq!['[']);
    assert("%"@ =~= seq!['%']);
    assert("]:"@ =~= seq![']', ':']);
    assert(uri =~= start + rest);
    text::a_prefix_is_how_a_text_begins(uri, start, rest);
    assert((start + rest).skip(n) =~= rest);
}

} // verus!
