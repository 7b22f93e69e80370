//! Whitelist files.

use crate::cidr::{canonicalize_v4, canonicalize_v6, network_v4, network_v6};
use crate::ipv4::{v4_in, Ipv4Addr};
use crate::ipv6::{v6_in, Ipv6Addr};
use crate::numbers::{decimal, read_unsigned, unsigned, write_numeral};
use crate::log::{add_line, log_texts, LogLine, LogText};
use crate::order::{adds, insert_sorted, lemma_can_add, lemma_sorted_unique, sorted};
use crate::text::{
    before, before_char, cat2, cat3, cat4, cat5, cat7, lemma_find, lines, lines_chars, slices,
    split_once, split_once_char, text_view, texts, to_chars, to_text, trim, trim_chars,
};
use vstd::prelude::*;

verus! {

/// A whitelist entry in the notation that nftables takes.
#[derive(Debug, PartialEq, Eq)]
pub enum EntryType {
    V4(String),
    V6(String),
}

/// The text of a whitelist entry.
pub enum EntryText {
    V4(Seq<char>),
    V6(Seq<char>),
}

impl View for EntryType {
    type V = EntryText;

    open spec fn view(&self) -> EntryText {
        match self {
            EntryType::V4(s) => EntryText::V4(s@),
            EntryType::V6(s) => EntryText::V6(s@),
        }
    }
}

/// What a line says, with strings taken by their characters.
pub open spec fn line_view(r: Result<Option<EntryType>, String>) -> Result<
    Option<EntryText>,
    Seq<char>,
> {
    match r {
        Ok(Some(e)) => Ok(Some(e@)),
        Ok(None) => Ok(None),
        Err(e) => Err(e@),
    }
}

// ---------------------------------------------------------------------------
// One line of a whitelist
// ---------------------------------------------------------------------------

/// A line without its comment and the white space around it.
pub open spec fn content_of(raw: Seq<char>) -> Seq<char> {
    trim(before(raw, '#'))
}

/// A network in CIDR notation.
pub open spec fn cidr_text(address: Seq<char>, prefix: nat) -> Seq<char> {
    address + "/"@ + decimal(prefix)
}

/// The complaint about host bits in a network of the given family.
pub open spec fn host_bits_error(family: Seq<char>, line: Seq<char>, network: Seq<char>) -> Seq<
    char,
> {
    family + " CIDR '"@ + line + "' has host bits set, expected '"@ + network + "'"@
}

/// The complaint about a prefix beyond the width of the family.
pub open spec fn width_error(
    family: Seq<char>,
    prefix: nat,
    limit: Seq<char>,
    line: Seq<char>,
) -> Seq<char> {
    family + " CIDR prefix /"@ + decimal(prefix) + " must be <= "@ + limit + " in '"@ + line + "'"@
}

/// What a line in CIDR notation says: `address` and `prefix` are the parts
/// around the slash of `line`.
pub open spec fn cidr_result(
    line: Seq<char>,
    address: Seq<char>,
    prefix: Seq<char>,
    strict: bool,
) -> Result<Option<EntryText>, Seq<char>> {
    match unsigned(prefix, 255) {
        None => Err("Invalid CIDR prefix '"@ + prefix + "' in '"@ + line + "'"@),
        Some(p) => match v4_in(address) {
            Some(ip) => {
                let network = network_v4(ip, p as u8);
                let text = cidr_text(network.text(), p);
                if p > 32 {
                    Err(width_error("IPv4"@, p, "32"@, line))
                } else if network != ip && strict {
                    Err(host_bits_error("IPv4"@, line, text))
                } else {
                    Ok(Some(EntryText::V4(text)))
                }
            },
            None => match v6_in(address) {
                Some(ip) => {
                    let network = network_v6(ip, p as u8);
                    let text = cidr_text(network.text(), p);
                    if p > 128 {
                        Err(width_error("IPv6"@, p, "128"@, line))
                    } else if network != ip && strict {
                        Err(host_bits_error("IPv6"@, line, text))
                    } else {
                        Ok(Some(EntryText::V6(text)))
                    }
                },
                None => Err("Invalid IP address '"@ + address + "' in CIDR '"@ + line + "'"@),
            },
        },
    }
}

/// What a line of a whitelist says: nothing, an entry, or an error.
pub open spec fn line_result(raw: Seq<char>, strict: bool) -> Result<Option<EntryText>, Seq<char>> {
    let line = content_of(raw);
    if line.len() == 0 {
        Ok(None)
    } else {
        match split_once(line, '/') {
            Some((a, p)) => cidr_result(line, trim(a), trim(p), strict),
            None => match v4_in(line) {
                Some(ip) => Ok(Some(EntryText::V4(ip.text()))),
                None => match v6_in(line) {
                    Some(ip) => Ok(Some(EntryText::V6(ip.text()))),
                    None => Err("Invalid IP address or CIDR: '"@ + line + "'"@),
                },
            },
        }
    }
}

/// The notice about a network whose host bits were cleared.
pub open spec fn canonicalized(family: Seq<char>, line: Seq<char>, network: Seq<char>) -> Seq<char> {
    "[Gateway] Notice: Canonicalized "@ + family + " CIDR '"@ + line + "' -> '"@ + network + "'"@
}

/// The notice about the parts around the slash of `line`, if host bits are cleared.
pub open spec fn cidr_notice(
    line: Seq<char>,
    address: Seq<char>,
    prefix: Seq<char>,
    strict: bool,
) -> Option<Seq<char>> {
    match (unsigned(prefix, 255), v4_in(address), v6_in(address)) {
        (Some(p), Some(ip), _) => {
            let network = network_v4(ip, p as u8);
            if p <= 32 && network != ip && !strict {
                Some(canonicalized("IPv4"@, line, cidr_text(network.text(), p)))
            } else {
                None
            }
        },
        (Some(p), None, Some(ip)) => {
            let network = network_v6(ip, p as u8);
            if p <= 128 && network != ip && !strict {
                Some(canonicalized("IPv6"@, line, cidr_text(network.text(), p)))
            } else {
                None
            }
        },
        _ => None,
    }
}

/// The notice that a line gives rise to, if host bits are cleared.
pub open spec fn line_notice(raw: Seq<char>, strict: bool) -> Option<Seq<char>> {
    let line = content_of(raw);
    match split_once(line, '/') {
        Some((a, p)) => cidr_notice(line, trim(a), trim(p), strict),
        None => None,
    }
}

/// What a line says, and the notice that it gives rise to.
pub struct LineReport {
    pub result: Result<Option<EntryType>, String>,
    pub notice: Option<String>,
}

impl LineReport {
    /// An error without a notice.
    fn error(message: String) -> (r: LineReport)
        ensures
            line_view(r.result) == Err::<Option<EntryText>, Seq<char>>(message@),
            text_view(r.notice) == None::<Seq<char>>,
    {
        LineReport { result: Err(message), notice: None }
    }

    /// An entry without a notice.
    fn entry(entry: EntryType) -> (r: LineReport)
        ensures
            line_view(r.result) == Ok::<Option<EntryText>, Seq<char>>(Some(entry@)),
            text_view(r.notice) == None::<Seq<char>>,
    {
        LineReport { result: Ok(Some(entry)), notice: None }
    }
}

/// A network in CIDR notation.
fn write_cidr(address: String, prefix: u8) -> (r: String)
    ensures
        r@ == cidr_text(address@, prefix as nat),
{
    cat3(address.as_str(), "/", write_numeral(prefix as u64, 10).as_str())
}

/// The complaint about a prefix beyond the width of the family.
fn write_width_error(family: &str, prefix: u8, limit: &str, line: &str) -> (r: String)
    ensures
        r@ == width_error(family@, prefix as nat, limit@, line@),
{
    let digits = write_numeral(prefix as u64, 10);
    let mut r = cat7(
        family,
        " CIDR prefix /",
        digits.as_str(),
        " must be <= ",
        limit,
        " in '",
        line,
    );
    r.append("'");
    r
}

/// The complaint about host bits in a network of the given family.
fn write_host_bits_error(family: &str, line: &str, network: &str) -> (r: String)
    ensures
        r@ == host_bits_error(family@, line@, network@),
{
    let mut r = cat5(family, " CIDR '", line, "' has host bits set, expected '", network);
    r.append("'");
    r
}

/// The notice about a network whose host bits were cleared.
fn write_canonicalized(family: &str, line: &str, network: &str) -> (r: String)
    ensures
        r@ == canonicalized(family@, line@, network@),
{
    cat7("[Gateway] Notice: Canonicalized ", family, " CIDR '", line, "' -> '", network, "'")
}

/// Reads the parts around the slash of a line in CIDR notation.
fn examine_cidr(line: &[char], address: &[char], prefix: &[char], strict: bool) -> (r: LineReport)
    ensures
        line_view(r.result) == cidr_result(line@, address@, prefix@, strict),
        text_view(r.notice) == cidr_notice(line@, address@, prefix@, strict),
{
    let whole = to_text(line);
    let p = match read_unsigned(prefix, 255) {
        Some(n) => n as u8,
        None => {
            return LineReport::error(
                cat5("Invalid CIDR prefix '", to_text(prefix).as_str(), "' in '", whole.as_str(), "'"),
            );
        },
    };
    if let Some(ip) = Ipv4Addr::read(address) {
        if p > 32 {
            return LineReport::error(write_width_error("IPv4", p, "32", whole.as_str()));
        }
        let canonical = canonicalize_v4(ip, p);
        let network = write_cidr(canonical.to_text(), p);
        if canonical == ip {
            LineReport::entry(EntryType::V4(network))
        } else if strict {
            LineReport::error(write_host_bits_error("IPv4", whole.as_str(), network.as_str()))
        } else {
            let notice = write_canonicalized("IPv4", whole.as_str(), network.as_str());
            LineReport { result: Ok(Some(EntryType::V4(network))), notice: Some(notice) }
        }
    } else if let Some(ip) = Ipv6Addr::read(address) {
        if p > 128 {
            return LineReport::error(write_width_error("IPv6", p, "128", whole.as_str()));
        }
        let canonical = canonicalize_v6(ip, p);
        let network = write_cidr(canonical.to_text(), p);
        if canonical == ip {
            LineReport::entry(EntryType::V6(network))
        } else if strict {
            LineReport::error(write_host_bits_error("IPv6", whole.as_str(), network.as_str()))
        } else {
            let notice = write_canonicalized("IPv6", whole.as_str(), network.as_str());
            LineReport { result: Ok(Some(EntryType::V6(network))), notice: Some(notice) }
        }
    } else {
        LineReport::error(
            cat5(
                "Invalid IP address '",
                to_text(address).as_str(),
                "' in CIDR '",
                whole.as_str(),
                "'",
            ),
        )
    }
}

/// Reads one line of a whitelist, and says what to tell the operator about it.
pub fn examine_line(raw_line: &[char], strict: bool) -> (r: LineReport)
    ensures
        line_view(r.result) == line_result(raw_line@, strict),
        text_view(r.notice) == line_notice(raw_line@, strict),
{
    let line = trim_chars(before_char(raw_line, '#'));
    proof {
        lemma_find(line@, '/');
    }
    if line.len() == 0 {
        return LineReport { result: Ok(None), notice: None };
    }
    match split_once_char(line, '/') {
        Some((a, p)) => examine_cidr(line, trim_chars(a), trim_chars(p), strict),
        None => {
            if let Some(ip) = Ipv4Addr::read(line) {
                LineReport::entry(EntryType::V4(ip.to_text()))
            } else if let Some(ip) = Ipv6Addr::read(line) {
                LineReport::entry(EntryType::V6(ip.to_text()))
            } else {
                LineReport::error(
                    cat3("Invalid IP address or CIDR: '", to_text(line).as_str(), "'"),
                )
            }
        },
    }
}

/// Reads one line of a whitelist.
pub fn parse_line(raw_line: &str, strict: bool) -> (r: Result<Option<EntryType>, String>)
    ensures
        line_view(r) == line_result(raw_line@, strict),
{
    let chars = to_chars(raw_line);
    examine_line(chars.as_slice(), strict).result
}

// ---------------------------------------------------------------------------
// A whitelist
// ---------------------------------------------------------------------------

/// The entries of a whitelist: per family, sorted and without duplicates.
#[derive(Debug, Clone, PartialEq, Eq)]
pub struct WhitelistEntries {
    pub v4: Vec<String>,
    pub v6: Vec<String>,
}

impl Default for WhitelistEntries {
    fn default() -> (r: WhitelistEntries)
        ensures
            r.v4@.len() == 0,
            r.v6@.len() == 0,
    {
        WhitelistEntries { v4: Vec::new(), v6: Vec::new() }
    }
}

/// Whether one of the lines says `entry`.
pub open spec fn has_entry(ls: Seq<Seq<char>>, strict: bool, entry: EntryText) -> bool {
    exists|i: int| 0 <= i < ls.len() && line_result(#[trigger] ls[i], strict) == Ok::<_, Seq<char>>(Some(entry))
}

/// Whether the list is sorted, without duplicates, and holds what the lines say of IPv4.
pub open spec fn lists_v4(v: Seq<Seq<char>>, ls: Seq<Seq<char>>, strict: bool) -> bool {
    &&& sorted(v)
    &&& forall|t: Seq<char>| #[trigger] v.contains(t) <==> has_entry(ls, strict, EntryText::V4(t))
}

/// Whether the list is sorted, without duplicates, and holds what the lines say of IPv6.
pub open spec fn lists_v6(v: Seq<Seq<char>>, ls: Seq<Seq<char>>, strict: bool) -> bool {
    &&& sorted(v)
    &&& forall|t: Seq<char>| #[trigger] v.contains(t) <==> has_entry(ls, strict, EntryText::V6(t))
}

/// What the lines say of IPv4: the sorted list without duplicates.
pub open spec fn v4_entries(ls: Seq<Seq<char>>, strict: bool) -> Seq<Seq<char>> {
    choose|v: Seq<Seq<char>>| lists_v4(v, ls, strict)
}

/// What the lines say of IPv6: the sorted list without duplicates.
pub open spec fn v6_entries(ls: Seq<Seq<char>>, strict: bool) -> Seq<Seq<char>> {
    choose|v: Seq<Seq<char>>| lists_v6(v, ls, strict)
}

/// The index of the first line in error, or the number of lines without one.
pub open spec fn first_error(ls: Seq<Seq<char>>) -> int
    decreases ls.len(),
{
    if ls.len() == 0 || line_result(ls[0], true) is Err {
        0
    } else {
        1 + first_error(ls.skip(1))
    }
}

/// The message about the error in line `number`.
pub open spec fn numbered(number: nat, error: Seq<char>) -> Seq<char> {
    "Line "@ + decimal(number) + ": "@ + error
}

/// The texts of the entries, per family.
pub struct EntryTexts {
    pub v4: Seq<Seq<char>>,
    pub v6: Seq<Seq<char>>,
}

impl View for WhitelistEntries {
    type V = EntryTexts;

    open spec fn view(&self) -> EntryTexts {
        EntryTexts { v4: texts(self.v4@), v6: texts(self.v6@) }
    }
}

/// Whether the entries are what the lines say: per family sorted and without duplicates.
pub open spec fn lists_entries(entries: EntryTexts, ls: Seq<Seq<char>>, strict: bool) -> bool {
    lists_v4(entries.v4, ls, strict) && lists_v6(entries.v6, ls, strict)
}

/// What a whitelist gives. A strict reading fails on the first line in error;
/// else lines in error are left out.
pub open spec fn whitelist_result(content: Seq<char>, strict: bool) -> Result<
    EntryTexts,
    Seq<char>,
> {
    let ls = lines(content);
    let k = first_error(ls);
    if strict && k < ls.len() {
        Err(numbered((k + 1) as nat, line_result(ls[k], true)->Err_0))
    } else {
        Ok(EntryTexts { v4: v4_entries(ls, strict), v6: v6_entries(ls, strict) })
    }
}

/// What was read from a whitelist, with strings taken by their characters.
pub open spec fn entries_view(r: Result<WhitelistEntries, String>) -> Result<
    EntryTexts,
    Seq<char>,
> {
    match r {
        Ok(entries) => Ok(entries@),
        Err(e) => Err(e@),
    }
}

/// What the operator is told about line `number` in a reading that is not strict.
pub open spec fn line_log(raw: Seq<char>, number: nat) -> Seq<LogText> {
    match (line_notice(raw, false), line_result(raw, false)) {
        (Some(notice), _) => seq![LogText::Stderr(notice)],
        (None, Err(e)) => seq![
            LogText::Stderr(
                "[Gateway] Warning: Ignored invalid whitelist entry: "@ + numbered(number, e),
            ),
        ],
        _ => Seq::empty(),
    }
}

/// What the operator is told about the lines in a reading that is not strict.
pub open spec fn whitelist_log(ls: Seq<Seq<char>>) -> Seq<LogText>
    decreases ls.len(),
{
    if ls.len() == 0 {
        Seq::empty()
    } else {
        whitelist_log(ls.drop_last()) + line_log(ls.last(), ls.len())
    }
}

/// The first line in error is the one that `first_error` gives.
proof fn lemma_first_error_is(ls: Seq<Seq<char>>, k: int)
    requires
        0 <= k <= ls.len(),
        forall|i: int| 0 <= i < k ==> line_result(#[trigger] ls[i], true) is Ok,
        k < ls.len() ==> line_result(ls[k], true) is Err,
    ensures
        first_error(ls) == k,
    decreases ls.len(),
{
    if k > 0 {
        assert(line_result(ls[0], true) is Ok);
        let t = ls.skip(1);
        assert forall|i: int| 0 <= i < k - 1 implies line_result(#[trigger] t[i], true) is Ok by {
            assert(t[i] == ls[i + 1]);
        }
        lemma_first_error_is(t, k - 1);
    }
}

/// One more line adds what it says.
proof fn lemma_one_more_line(ls: Seq<Seq<char>>, k: int, strict: bool, entry: EntryText)
    requires
        0 <= k < ls.len(),
    ensures
        has_entry(ls.take(k + 1), strict, entry) <==> has_entry(ls.take(k), strict, entry)
            || line_result(ls[k], strict) == Ok::<_, Seq<char>>(Some(entry)),
{
    let a = ls.take(k);
    let b = ls.take(k + 1);
    if has_entry(b, strict, entry) {
        let i = choose|i: int| 0 <= i < b.len() && line_result(#[trigger] b[i], strict) == Ok::<_, Seq<char>>(Some(entry));
        if i < k {
            assert(a[i] == b[i]);
        }
    }
    if has_entry(a, strict, entry) {
        let i = choose|i: int| 0 <= i < a.len() && line_result(#[trigger] a[i], strict) == Ok::<_, Seq<char>>(Some(entry));
        assert(b[i] == a[i]);
    }
    if line_result(ls[k], strict) == Ok::<_, Seq<char>>(Some(entry)) {
        assert(b[k] == ls[k]);
    }
}

/// A list of what the lines say is the only one.
pub proof fn lemma_entries_are(v4: Seq<Seq<char>>, v6: Seq<Seq<char>>, ls: Seq<Seq<char>>, strict: bool)
    ensures
        lists_v4(v4, ls, strict) ==> v4 == v4_entries(ls, strict),
        lists_v6(v6, ls, strict) ==> v6 == v6_entries(ls, strict),
{
    if lists_v4(v4, ls, strict) {
        let w = v4_entries(ls, strict);
        assert(lists_v4(w, ls, strict));
        assert forall|t: Seq<char>| #[trigger] v4.contains(t) <==> w.contains(t) by {}
        lemma_sorted_unique(v4, w);
    }
    if lists_v6(v6, ls, strict) {
        let w = v6_entries(ls, strict);
        assert(lists_v6(w, ls, strict));
        assert forall|t: Seq<char>| #[trigger] v6.contains(t) <==> w.contains(t) by {}
        lemma_sorted_unique(v6, w);
    }
}

/// The entries of each family are sorted, without duplicates, and are what
/// the lines say: nothing is lost and nothing is added.
pub proof fn entries_are_what_the_lines_say(ls: Seq<Seq<char>>, strict: bool)
    ensures
        lists_v4(v4_entries(ls, strict), ls, strict),
        lists_v6(v6_entries(ls, strict), ls, strict),
    decreases ls.len(),
{
    if ls.len() == 0 {
        let none = Seq::<Seq<char>>::empty();
        assert(lists_v4(none, ls, strict));
        assert(lists_v6(none, ls, strict));
    } else {
        let k = ls.len() - 1;
        let front = ls.take(k);
        assert(ls.take(k + 1) =~= ls);
        entries_are_what_the_lines_say(front, strict);
        let v4 = v4_entries(front, strict);
        let v6 = v6_entries(front, strict);
        let (w4, w6) = match line_result(ls[k], strict) {
            Ok(Some(EntryText::V4(t))) => {
                lemma_can_add(v4, t);
                (choose|w: Seq<Seq<char>>| adds(w, v4, t), v6)
            },
            Ok(Some(EntryText::V6(t))) => {
                lemma_can_add(v6, t);
                (v4, choose|w: Seq<Seq<char>>| adds(w, v6, t))
            },
            _ => (v4, v6),
        };
        assert forall|t: Seq<char>| #[trigger] w4.contains(t) <==> has_entry(
            ls,
            strict,
            EntryText::V4(t),
        ) by {
            lemma_one_more_line(ls, k, strict, EntryText::V4(t));
            assert(v4.contains(t) <==> has_entry(front, strict, EntryText::V4(t)));
        }
        assert forall|t: Seq<char>| #[trigger] w6.contains(t) <==> has_entry(
            ls,
            strict,
            EntryText::V6(t),
        ) by {
            lemma_one_more_line(ls, k, strict, EntryText::V6(t));
            assert(v6.contains(t) <==> has_entry(front, strict, EntryText::V6(t)));
        }
        assert(lists_v4(w4, ls, strict));
        assert(lists_v6(w6, ls, strict));
    }
}

/// What a whitelist gives, and what to tell the operator about it.
pub struct WhitelistReport {
    pub result: Result<WhitelistEntries, String>,
    pub log: Vec<LogLine>,
}

/// The IPv4 entry that a line says.
spec fn said_of_v4(said: Result<Option<EntryText>, Seq<char>>) -> Option<Seq<char>> {
    match said {
        Ok(Some(EntryText::V4(t))) => Some(t),
        _ => None,
    }
}

/// The IPv6 entry that a line says.
spec fn said_of_v6(said: Result<Option<EntryText>, Seq<char>>) -> Option<Seq<char>> {
    match said {
        Ok(Some(EntryText::V6(t))) => Some(t),
        _ => None,
    }
}

/// Whether the list `w` is `v` with what a line says, if it says anything.
spec fn gains(w: Seq<Seq<char>>, v: Seq<Seq<char>>, said: Option<Seq<char>>) -> bool {
    match said {
        Some(t) => adds(w, v, t),
        None => w == v,
    }
}

/// The IPv4 entries of the lines up to `k`, and what line `k` says of IPv4.
proof fn lemma_next_v4(w: Seq<Seq<char>>, v: Seq<Seq<char>>, ls: Seq<Seq<char>>, k: int, strict: bool)
    requires
        0 <= k < ls.len(),
        lists_v4(v, ls.take(k), strict),
        gains(w, v, said_of_v4(line_result(ls[k], strict))),
    ensures
        lists_v4(w, ls.take(k + 1), strict),
{
    assert forall|t: Seq<char>| #[trigger] w.contains(t) <==> has_entry(
        ls.take(k + 1),
        strict,
        EntryText::V4(t),
    ) by {
        lemma_one_more_line(ls, k, strict, EntryText::V4(t));
        assert(v.contains(t) <==> has_entry(ls.take(k), strict, EntryText::V4(t)));
    }
}

/// The IPv6 entries of the lines up to `k`, and what line `k` says of IPv6.
proof fn lemma_next_v6(w: Seq<Seq<char>>, v: Seq<Seq<char>>, ls: Seq<Seq<char>>, k: int, strict: bool)
    requires
        0 <= k < ls.len(),
        lists_v6(v, ls.take(k), strict),
        gains(w, v, said_of_v6(line_result(ls[k], strict))),
    ensures
        lists_v6(w, ls.take(k + 1), strict),
{
    assert forall|t: Seq<char>| #[trigger] w.contains(t) <==> has_entry(
        ls.take(k + 1),
        strict,
        EntryText::V6(t),
    ) by {
        lemma_one_more_line(ls, k, strict, EntryText::V6(t));
        assert(v.contains(t) <==> has_entry(ls.take(k), strict, EntryText::V6(t)));
    }
}

/// What the operator is told about the lines up to `k`, and about line `k`.
proof fn lemma_next_log(ls: Seq<Seq<char>>, k: int)
    requires
        0 <= k < ls.len(),
    ensures
        whitelist_log(ls.take(k + 1)) == whitelist_log(ls.take(k)) + line_log(
            ls[k],
            (k + 1) as nat,
        ),
{
    assert(ls.take(k + 1).drop_last() =~= ls.take(k));
    assert(ls.take(k + 1).last() == ls[k]);
}

/// How far a reading has come: the entries and what the operator was told.
struct ReadingView {
    entries: EntryTexts,
    log: Seq<LogText>,
}

/// Whether line `number` leads from one state of a reading to the next, or to
/// the error that ends a strict reading.
#[verifier::opaque]
spec fn line_leads(
    from: ReadingView,
    to: ReadingView,
    raw: Seq<char>,
    number: nat,
    strict: bool,
    failure: Option<Seq<char>>,
) -> bool {
    let said = line_result(raw, strict);
    &&& gains(to.entries.v4, from.entries.v4, said_of_v4(said))
    &&& gains(to.entries.v6, from.entries.v6, said_of_v6(said))
    &&& to.log == from.log + (if strict {
        Seq::empty()
    } else {
        line_log(raw, number)
    })
    &&& failure == (match said {
        Err(e) if strict => Some(numbered(number, e)),
        _ => None,
    })
}

/// Whether the state of a reading is that after the first `k` lines.
#[verifier::opaque]
spec fn has_read(state: ReadingView, ls: Seq<Seq<char>>, k: int, strict: bool) -> bool {
    &&& 0 <= k <= ls.len()
    &&& lists_entries(state.entries, ls.take(k), strict)
    &&& strict ==> forall|i: int| 0 <= i < k ==> line_result(#[trigger] ls[i], true) is Ok
    &&& state.log == (if strict {
        Seq::empty()
    } else {
        whitelist_log(ls.take(k))
    })
}

/// Before the first line there is nothing.
proof fn lemma_nothing_read(state: ReadingView, ls: Seq<Seq<char>>, strict: bool)
    requires
        state.entries.v4.len() == 0,
        state.entries.v6.len() == 0,
        state.log.len() == 0,
    ensures
        has_read(state, ls, 0, strict),
{
    reveal(has_read);
    assert(state.log =~= Seq::empty());
    assert(whitelist_log(ls.take(0)) =~= Seq::empty());
}

/// One line more, if it does not end the reading.
#[verifier::spinoff_prover]
#[verifier::rlimit(40)]
proof fn lemma_line_read(
    from: ReadingView,
    to: ReadingView,
    ls: Seq<Seq<char>>,
    k: int,
    strict: bool,
)
    requires
        0 <= k < ls.len(),
        has_read(from, ls, k, strict),
        line_leads(from, to, ls[k], (k + 1) as nat, strict, None),
    ensures
        has_read(to, ls, k + 1, strict),
        sorted(to.entries.v4),
        sorted(to.entries.v6),
{
    reveal(has_read);
    reveal(line_leads);
    lemma_next_v4(to.entries.v4, from.entries.v4, ls, k, strict);
    lemma_next_v6(to.entries.v6, from.entries.v6, ls, k, strict);
    lemma_next_log(ls, k);
    if strict {
        assert(to.log =~= Seq::empty());
    }
}

/// The line that ends a strict reading.
proof fn lemma_reading_fails(
    from: ReadingView,
    to: ReadingView,
    content: Seq<char>,
    k: int,
    strict: bool,
    message: Seq<char>,
)
    requires
        0 <= k < lines(content).len(),
        has_read(from, lines(content), k, strict),
        line_leads(from, to, lines(content)[k], (k + 1) as nat, strict, Some(message)),
    ensures
        strict,
        whitelist_result(content, strict) == Err::<EntryTexts, Seq<char>>(message),
        to.log == Seq::<LogText>::empty(),
{
    reveal(has_read);
    reveal(line_leads);
    lemma_first_error_is(lines(content), k);
    assert(to.log =~= Seq::empty());
}

/// After the last line the reading is what the whitelist gives.
proof fn lemma_all_read(state: ReadingView, content: Seq<char>, strict: bool)
    requires
        has_read(state, lines(content), lines(content).len() as int, strict),
    ensures
        whitelist_result(content, strict) == Ok::<EntryTexts, Seq<char>>(state.entries),
        lists_entries(state.entries, lines(content), strict),
        state.log == (if strict {
            Seq::empty()
        } else {
            whitelist_log(lines(content))
        }),
{
    let ls = lines(content);
    reveal(has_read);
    assert(ls.take(ls.len() as int) =~= ls);
    if strict {
        lemma_first_error_is(ls, ls.len() as int);
    }
    lemma_entries_are(state.entries.v4, state.entries.v6, ls, strict);
}

/// Takes in line `number` of a whitelist. The result is the error that ends a
/// strict reading.
fn take_line(
    entries: &mut WhitelistEntries,
    log: &mut Vec<LogLine>,
    raw: &[char],
    number: u64,
    strict: bool,
) -> (r: Option<String>)
    requires
        sorted(old(entries)@.v4),
        sorted(old(entries)@.v6),
    ensures
        line_leads(
            (ReadingView { entries: old(entries)@, log: log_texts(old(log)@) }),
            (ReadingView { entries: final(entries)@, log: log_texts(final(log)@) }),
            raw@,
            number as nat,
            strict,
            text_view(r),
        ),
{
    reveal(line_leads);
    let ghost start = log_texts(log@);
    let report = examine_line(raw, strict);
    if let Some(notice) = report.notice {
        add_line(log, LogLine::Stderr(notice));
    }
    let mut failure: Option<String> = None;
    match report.result {
        Ok(Some(EntryType::V4(t))) => {
            insert_sorted(&mut entries.v4, t);
        },
        Ok(Some(EntryType::V6(t))) => {
            insert_sorted(&mut entries.v6, t);
        },
        Ok(None) => {},
        Err(err) => {
            let message = cat4("Line ", write_numeral(number, 10).as_str(), ": ", err.as_str());
            if strict {
                failure = Some(message);
            } else {
                add_line(
                    log,
                    LogLine::Stderr(
                        cat2(
                            "[Gateway] Warning: Ignored invalid whitelist entry: ",
                            message.as_str(),
                        ),
                    ),
                );
            }
        },
    }
    proof {
        if strict {
            assert(log_texts(log@) =~= start + Seq::empty());
        } else {
            assert(log_texts(log@) =~= start + line_log(raw@, number as nat));
        }
    }
    failure
}

/// Reads a whitelist, and says what to tell the operator about it.
#[verifier::spinoff_prover]
pub fn examine_whitelist(content: &str, strict: bool) -> (r: WhitelistReport)
    ensures
        entries_view(r.result) == whitelist_result(content@, strict),
        r.result matches Ok(entries) ==> lists_entries(entries@, lines(content@), strict),
        log_texts(r.log@) == (if strict {
            Seq::empty()
        } else {
            whitelist_log(lines(content@))
        }),
{
    let chars = to_chars(content);
    let rows = lines_chars(chars.as_slice());
    let ghost ls = lines(content@);
    let mut entries = WhitelistEntries::default();
    let mut log: Vec<LogLine> = Vec::new();
    proof {
        lemma_nothing_read(ReadingView { entries: entries@, log: log_texts(log@) }, ls, strict);
    }
    for idx in 0..rows.len()
        invariant
            slices(rows@) == ls,
            ls == lines(content@),
            sorted(entries@.v4),
            sorted(entries@.v6),
            has_read(
                (ReadingView { entries: entries@, log: log_texts(log@) }),
                ls,
                idx as int,
                strict,
            ),
    {
        let ghost i = idx as int;
        let ghost from = ReadingView { entries: entries@, log: log_texts(log@) };
        assert(rows@[i]@ == ls[i]);
        let failure = take_line(&mut entries, &mut log, rows[idx], idx as u64 + 1, strict);
        let ghost to = ReadingView { entries: entries@, log: log_texts(log@) };
        if let Some(message) = failure {
            proof {
                lemma_reading_fails(from, to, content@, i, strict, message@);
            }
            return WhitelistReport { result: Err(message), log };
        }
        proof {
            lemma_line_read(from, to, ls, i, strict);
        }
    }
    proof {
        lemma_all_read(
            ReadingView { entries: entries@, log: log_texts(log@) },
            content@,
            strict,
        );
    }
    WhitelistReport { result: Ok(entries), log }
}

/// Reads a whitelist.
pub fn parse_whitelist(content: &str, strict: bool) -> (r: Result<WhitelistEntries, String>)
    ensures
        entries_view(r) == whitelist_result(content@, strict),
        r matches Ok(entries) ==> lists_entries(entries@, lines(content@), strict),
{
    examine_whitelist(content, strict).result
}

} // verus!
