//! What the desktop window asks of the back end: the server's addresses,
//! and taking a file off the share list.
use vstd::prelude::*;
use vstd::string::*;
use crate::file_manager::{FileManager, SharedFileView};
use crate::text::{decimal, push_char, push_decimal, push_str};

verus! {

/// The state of the download server as the window shows it.
#[derive(Debug, Clone)]
pub struct ServerInfo {
    pub ip: String,
    pub port: u16,
    pub running: bool,
    pub base_url: String,
    pub ips: Vec<String>,
    pub base_urls: Vec<String>,
}

pub open spec fn strings(v: Seq<String>) -> Seq<Seq<char>> {
    v.map_values(|s: String| s@)
}

/// `http://<ip>:<port>`.
pub open spec fn spec_base_url(ip: Seq<char>, port: u16) -> Seq<char> {
    seq!['h', 't', 't', 'p', ':', '/', '/'] + ip + seq![':'] + decimal(port as nat)
}

/// The first element, or an empty text.
pub open spec fn first_or_empty(v: Seq<Seq<char>>) -> Seq<char> {
    if v.len() > 0 {
        v[0]
    } else {
        seq![]
    }
}

/// `http://<ip>:<port>` for one address.
pub fn base_url(ip: &str, port: u16) -> (r: String)
    ensures
        r@ == spec_base_url(ip@, port),
{
    let mut s = String::new();
    push_str(&mut s, "http://");
    push_str(&mut s, ip);
    push_char(&mut s, ':');
    push_decimal(&mut s, port as u128);
    proof {
        reveal_strlit("http://");
    }
    assert(s@ =~= spec_base_url(ip@, port));
    s
}

/// The server information: with the server running on `port`, every LAN
/// address in `lan_ips` with its base URL (the first of each shown first);
/// without a server, everything empty and port 0.
pub fn get_server_info(port: Option<u16>, lan_ips: Vec<String>) -> (r: ServerInfo)
    ensures
        match port {
            Some(p) => {
                &&& r.running
                &&& r.port == p
                &&& strings(r.ips@) == strings(lan_ips@)
                &&& r.base_urls@.len() == lan_ips@.len()
                &&& forall|i: int|
                    0 <= i < lan_ips@.len() ==> (#[trigger] r.base_urls@[i])@ == spec_base_url(
                        lan_ips@[i]@,
                        p,
                    )
                &&& r.ip@ == first_or_empty(strings(lan_ips@))
                &&& r.base_url@ == first_or_empty(strings(r.base_urls@))
            },
            None => {
                &&& !r.running
                &&& r.port == 0
                &&& r.ip@.len() == 0
                &&& r.base_url@.len() == 0
                &&& r.ips@.len() == 0
                &&& r.base_urls@.len() == 0
            },
        },
{
    match port {
        Some(p) => {
            let mut urls: Vec<String> = Vec::new();
            let mut i: usize = 0;
            while i < lan_ips.len()
                invariant
                    i <= lan_ips@.len(),
                    urls@.len() == i,
                    forall|j: int|
                        0 <= j < i ==> (#[trigger] urls@[j])@ == spec_base_url(lan_ips@[j]@, p),
                decreases lan_ips@.len() - i,
            {
                urls.push(base_url(lan_ips[i].as_str(), p));
                i = i + 1;
            }
            let ip = if lan_ips.len() > 0 {
                lan_ips[0].clone()
            } else {
                String::new()
            };
            let first_url = if urls.len() > 0 {
                urls[0].clone()
            } else {
                String::new()
            };
            assert(strings(lan_ips@) =~= strings(lan_ips@));
            ServerInfo { ip, port: p, running: true, base_url: first_url, ips: lan_ips, base_urls: urls }
        },
        None => ServerInfo {
            ip: String::new(),
            port: 0,
            running: false,
            base_url: String::new(),
            ips: Vec::new(),
            base_urls: Vec::new(),
        },
    }
}

/// Shown when there is no file with the code to delete.
pub const MSG_NO_SUCH_FILE: &'static str = "文件不存在";

/// Takes the file with `code` off the share list. `Err` with a notice when
/// there is no such file (nothing changes); otherwise `Ok(stop)`, where
/// `stop` says that the list is now empty and the download server is to be
/// stopped.
pub fn delete_shared_file(fm: &mut FileManager, code: &str) -> (r: Result<bool, String>)
    ensures
        final(fm)@ == old(fm)@.remove(code@),
        old(fm)@.contains_key(code@) <==> r is Ok,
        r matches Err(msg) ==> msg@ == MSG_NO_SUCH_FILE@,
        r matches Ok(stop) ==> stop == (final(fm)@ == Map::<Seq<char>, SharedFileView>::empty()),
{
    let removed = fm.remove_file(code);
    if !removed {
        return Err(String::from_str(MSG_NO_SUCH_FILE));
    }
    Ok(fm.is_empty())
}

/// One network interface address, as the interface list reports it.
#[derive(Debug, Clone)]
pub struct InterfaceAddress {
    pub is_loopback: bool,
    pub is_ipv4: bool,
    pub ip: String,
}

pub open spec fn lan_candidates(ifaces: Seq<InterfaceAddress>) -> Seq<Seq<char>>
    decreases ifaces.len(),
{
    if ifaces.len() == 0 {
        seq![]
    } else {
        let rest = lan_candidates(ifaces.drop_last());
        let last = ifaces.last();
        if !last.is_loopback && last.is_ipv4 {
            rest.push(last.ip@)
        } else {
            rest
        }
    }
}

/// The IPv4 addresses of the interfaces other than loopback, in order; when
/// there is none, `127.0.0.1` alone.
pub open spec fn spec_lan_ips(ifaces: Seq<InterfaceAddress>) -> Seq<Seq<char>> {
    if lan_candidates(ifaces).len() == 0 {
        seq![seq!['1', '2', '7', '.', '0', '.', '0', '.', '1']]
    } else {
        lan_candidates(ifaces)
    }
}

/// Every interface address that is IPv4 and not loopback is offered, in the
/// order of the list, and no other one: the candidates are the list filtered
/// by that condition, each taken by its address. When the filter leaves
/// nothing, `127.0.0.1` alone is offered.
pub proof fn law_lan_ips_are_the_filter(ifaces: Seq<InterfaceAddress>)
    ensures
        lan_candidates(ifaces) == ifaces.filter(|x: InterfaceAddress| !x.is_loopback && x.is_ipv4)
            .map_values(|x: InterfaceAddress| x.ip@),
        ifaces.filter(|x: InterfaceAddress| !x.is_loopback && x.is_ipv4).len() > 0 ==> spec_lan_ips(ifaces)
            == ifaces.filter(|x: InterfaceAddress| !x.is_loopback && x.is_ipv4).map_values(
            |x: InterfaceAddress| x.ip@),
        ifaces.filter(|x: InterfaceAddress| !x.is_loopback && x.is_ipv4).len() == 0 ==> spec_lan_ips(ifaces)
            == seq![seq!['1', '2', '7', '.', '0', '.', '0', '.', '1']],
    decreases ifaces.len(),
{
    reveal(Seq::filter);
    let pred = |x: InterfaceAddress| !x.is_loopback && x.is_ipv4;
    let ip = |x: InterfaceAddress| x.ip@;
    if ifaces.len() == 0 {
        assert(ifaces.filter(pred).map_values(ip) =~= Seq::<Seq<char>>::empty());
    } else {
        law_lan_ips_are_the_filter(ifaces.drop_last());
        let sub = ifaces.drop_last().filter(pred);
        if pred(ifaces.last()) {
            assert(ifaces.filter(pred) == sub.push(ifaces.last()));
            assert(sub.push(ifaces.last()).map_values(ip) =~= sub.map_values(ip).push(ifaces.last().ip@));
        } else {
            assert(ifaces.filter(pred) == sub);
        }
    }
}

/// The LAN addresses to offer download links on.
pub fn select_lan_ips(ifaces: &Vec<InterfaceAddress>) -> (r: Vec<String>)
    ensures
        strings(r@) == spec_lan_ips(ifaces@),
{
    let mut ips: Vec<String> = Vec::new();
    let mut i: usize = 0;
    while i < ifaces.len()
        invariant
            i <= ifaces@.len(),
            strings(ips@) == lan_candidates(ifaces@.take(i as int)),
        decreases ifaces@.len() - i,
    {
        assert(ifaces@.take(i + 1).drop_last() =~= ifaces@.take(i as int));
        let iface = &ifaces[i];
        if !iface.is_loopback && iface.is_ipv4 {
            ips.push(iface.ip.clone());
            assert(strings(ips@) =~= lan_candidates(ifaces@.take(i as int)).push(iface.ip@));
        }
        i = i + 1;
    }
    assert(ifaces@.take(i as int) =~= ifaces@);
    if ips.len() == 0 {
        assert(strings(ips@).len() == 0);
        ips.push(String::from_str("127.0.0.1"));
        proof {
            reveal_strlit("127.0.0.1");
            assert("127.0.0.1"@ =~= seq!['1', '2', '7', '.', '0', '.', '0', '.', '1']);
            assert(ips@[0]@ == "127.0.0.1"@);
        }
        assert(strings(ips@) =~= spec_lan_ips(ifaces@));
    }
    ips
}

} // verus!
