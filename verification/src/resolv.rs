//! Resolver configuration in the format of `resolv.conf`.

use crate::addr::{ip_in, ip_text_reads_back, IpAddr};
use crate::ipv4::{v4_text_reads_back, Ipv4Addr};
use crate::ipv6::{lemma_v6_text_shape, Ipv6Addr};
use crate::text::{
    before, before_char, is_white, lemma_find, lemma_split_single, lemma_trim,
    lemma_trim_is_identity, lemma_two_words, lines, lines_chars, same_text, slices, to_chars, trim,
    trim_chars, words, words_chars,
};
use vstd::prelude::*;

verus! {

/// One name server per family, where there is one.
#[derive(Debug, Clone, PartialEq, Eq, Structural)]
pub struct DetectedDns {
    pub v4: Option<Ipv4Addr>,
    pub v6: Option<Ipv6Addr>,
}

impl Default for DetectedDns {
    fn default() -> (r: DetectedDns)
        ensures
            r.v4 is None,
            r.v6 is None,
    {
        DetectedDns { v4: None, v6: None }
    }
}

/// A line without its comment, which starts at `#` or `;`.
pub open spec fn directive_of(raw: Seq<char>) -> Seq<char> {
    trim(before(trim(before(raw, '#')), ';'))
}

/// The name server that a line declares.
pub open spec fn nameserver_in(raw: Seq<char>) -> Option<IpAddr> {
    let w = words(directive_of(raw));
    if w.len() >= 2 && w[0] == "nameserver"@ {
        ip_in(w[1])
    } else {
        None
    }
}

/// The name servers that the lines declare, in order.
pub open spec fn nameservers_in(ls: Seq<Seq<char>>) -> Seq<IpAddr> {
    ls.filter_map(|raw: Seq<char>| nameserver_in(raw))
}

/// The first IPv4 address.
pub open spec fn first_v4(ips: Seq<IpAddr>) -> Option<Ipv4Addr>
    decreases ips.len(),
{
    if ips.len() == 0 {
        None
    } else {
        match (first_v4(ips.drop_last()), ips.last()) {
            (Some(v4), _) => Some(v4),
            (None, IpAddr::V4(v4)) => Some(v4),
            (None, IpAddr::V6(_)) => None,
        }
    }
}

/// The first IPv6 address.
pub open spec fn first_v6(ips: Seq<IpAddr>) -> Option<Ipv6Addr>
    decreases ips.len(),
{
    if ips.len() == 0 {
        None
    } else {
        match (first_v6(ips.drop_last()), ips.last()) {
            (Some(v6), _) => Some(v6),
            (None, IpAddr::V6(v6)) => Some(v6),
            (None, IpAddr::V4(_)) => None,
        }
    }
}

/// The first name server of each family in a resolver configuration.
pub open spec fn first_nameservers(content: Seq<char>) -> DetectedDns {
    DetectedDns {
        v4: first_v4(nameservers_in(lines(content))),
        v6: first_v6(nameservers_in(lines(content))),
    }
}

/// The name server that a line declares.
fn read_nameserver(raw: &[char]) -> (r: Option<IpAddr>)
    ensures
        r == nameserver_in(raw@),
{
    let line = trim_chars(before_char(trim_chars(before_char(raw, '#')), ';'));
    let parts = words_chars(line);
    if parts.len() < 2 {
        return None;
    }
    assert(slices(parts@)[0] == parts@[0]@ && slices(parts@)[1] == parts@[1]@);
    if same_text(parts[0], "nameserver") {
        IpAddr::read(parts[1])
    } else {
        None
    }
}

/// Extract all nameservers from resolv.conf format content in order.
pub fn parse_all_nameservers(content: &str) -> (r: Vec<IpAddr>)
    ensures
        r@ == nameservers_in(lines(content@)),
{
    let chars = to_chars(content);
    let rows = lines_chars(chars.as_slice());
    let ghost ls = lines(content@);
    let mut servers: Vec<IpAddr> = Vec::new();
    for i in 0..rows.len()
        invariant
            slices(rows@) == ls,
            servers@ == nameservers_in(ls.take(i as int)),
    {
        assert(rows@[i as int]@ == ls[i as int]);
        assert(ls.take(i + 1).drop_last() =~= ls.take(i as int));
        if let Some(ip) = read_nameserver(rows[i]) {
            let ghost before = servers@;
            servers.push(ip);
            assert(servers@ =~= before + seq![ip]);
        }
    }
    assert(ls.take(rows@.len() as int) =~= ls);
    servers
}

/// Parse nameserver entries from resolv.conf format content.
pub fn parse_resolv_conf(content: &str) -> (r: DetectedDns)
    ensures
        r == first_nameservers(content@),
{
    let servers = parse_all_nameservers(content);
    let mut detected = DetectedDns::default();
    for i in 0..servers.len()
        invariant
            detected.v4 == first_v4(servers@.take(i as int)),
            detected.v6 == first_v6(servers@.take(i as int)),
    {
        assert(servers@.take(i + 1).drop_last() =~= servers@.take(i as int));
        match servers[i] {
            IpAddr::V4(v4) => {
                if detected.v4.is_none() {
                    detected.v4 = Some(v4);
                }
            },
            IpAddr::V6(v6) => {
                if detected.v6.is_none() {
                    detected.v6 = Some(v6);
                }
            },
        }
    }
    assert(servers@.take(servers@.len() as int) =~= servers@);
    detected
}

/// The first name server of each family in a configuration that was read, none
/// where it could not be read.
pub fn detect_system_dns(content: Option<&str>) -> (r: DetectedDns)
    ensures
        r == (match content {
            Some(c) => first_nameservers(c@),
            None => DetectedDns { v4: None, v6: None },
        }),
{
    match content {
        Some(c) => parse_resolv_conf(c),
        None => DetectedDns::default(),
    }
}

// ---------------------------------------------------------------------------
// Laws
// ---------------------------------------------------------------------------

/// Neither a comment nor white space at the ends changes what a line declares.
pub proof fn comments_declare_nothing(raw: Seq<char>)
    ensures
        nameserver_in(directive_of(raw)) == nameserver_in(raw),
{
    let first = trim(before(raw, '#'));
    let body = before(first, ';');
    let line = trim(body);
    lemma_find(raw, '#');
    lemma_trim(before(raw, '#'));
    lemma_find(first, ';');
    lemma_trim(body);
    assert(!line.contains(';')) by {
        if line.contains(';') {
            let i = choose|i: int| 0 <= i < body.len() && body[i] == ';';
            assert(first[i] != ';');
        }
    }
    assert(!line.contains('#')) by {
        if line.contains('#') {
            assert(body.contains('#'));
            let i = choose|i: int| 0 <= i < body.len() && body[i] == '#';
            assert(first[i] == '#');
            assert(first.contains('#'));
            let j = choose|j: int|
                0 <= j < before(raw, '#').len() && before(raw, '#')[j] == '#';
            assert(raw[j] != '#');
        }
    }
    lemma_split_single(line, '#');
    lemma_split_single(line, ';');
    lemma_trim_is_identity(line);
}

/// A line that names an address as a name server declares that address.
pub proof fn a_declared_server_reads_back(ip: IpAddr)
    ensures
        nameserver_in("nameserver "@ + ip.text()) == Some(ip),
{
    let text = ip.text();
    let word = "nameserver"@;
    let line = "nameserver "@ + text;
    reveal_strlit("nameserver ");
    reveal_strlit("nameserver");
    ip_text_reads_back(ip);
    lemma_address_text(ip);
    assert("nameserver "@ =~= word + seq![' ']);
    assert(line =~= word + seq![' '] + text);
    assert forall|i: int| 0 <= i < word.len() implies !is_white(#[trigger] word[i]) by {}
    assert forall|i: int| 0 <= i < line.len() implies line[i] != '#' && #[trigger] line[i] != ';' by {
        if i >= 11 {
            assert(line[i] == text[i - 11]);
        }
    }
    assert(!line.contains('#') && !line.contains(';'));
    assert(line[0] == word[0] && line.last() == text.last());
    assert(!is_white(text[text.len() - 1]));
    lemma_trim_is_identity(line);
    lemma_split_single(line, '#');
    lemma_split_single(line, ';');
    lemma_two_words(word, ' ', text);
}

/// The text of an address holds no white space and starts no comment.
proof fn lemma_address_text(ip: IpAddr)
    ensures
        ip.text().len() > 0,
        forall|i: int|
            0 <= i < ip.text().len() ==> !is_white(#[trigger] ip.text()[i]) && ip.text()[i] != '#'
                && ip.text()[i] != ';',
{
    match ip {
        IpAddr::V4(v4) => v4_text_reads_back(v4),
        IpAddr::V6(v6) => lemma_v6_text_shape(v6),
    }
}

} // verus!
