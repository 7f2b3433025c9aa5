//! What the kernel's status files say.
use crate::decimal::{parse_u64, parsed, unsigned_part};
use crate::net::addr::{hex_digit_value, hex_number};
use crate::split::{halves_at_last, law_lines_of_joined_texts, lines_of, split_last, split_lines, split_words, words_of};
use crate::text::{chars_of, starts_with, string_of, text_eq, texts, trim, trimmed};
use vstd::prelude::*;

verus! {

/// The bytes received and sent that a row of an interface gives, unless it is the
/// loopback interface's.
pub open spec fn row_counters(row: Seq<char>) -> Option<(u64, u64)> {
    match halves_at_last(row, ':') {
        None => None,
        Some((interface, columns)) => {
            let words = words_of(columns);
            if trimmed(interface) == "lo"@ || words.len() < 9 {
                None
            } else {
                match (parsed(words[0], u64::MAX as nat), parsed(words[8], u64::MAX as nat)) {
                    (Some(received), Some(sent)) => Some((received as u64, sent as u64)),
                    _ => None,
                }
            }
        },
    }
}

pub open spec fn saturating_sum(a: u64, b: u64) -> u64 {
    if a + b > u64::MAX {
        u64::MAX
    } else {
        (a + b) as u64
    }
}

/// The sums over rows, at most the largest number that there is.
pub open spec fn counters(rows: Seq<Seq<char>>) -> (u64, u64)
    decreases rows.len(),
{
    if rows.len() == 0 {
        (0, 0)
    } else {
        let (ingress, egress) = counters(rows.drop_last());
        match row_counters(rows.last()) {
            None => (ingress, egress),
            Some((received, sent)) => (saturating_sum(ingress, received), saturating_sum(egress, sent)),
        }
    }
}

fn parse_row(row: &str) -> (r: Option<(u64, u64)>)
    ensures
        r == row_counters(row@),
{
    let (interface, columns) = match split_last(row, ':') {
        None => return None,
        Some(halves) => halves,
    };
    if text_eq(trim(interface.as_str()).as_str(), "lo") {
        return None;
    }
    let words = split_words(columns.as_str());
    let ghost all = texts(words@);
    assert(all.len() == words@.len());
    if words.len() < 9 {
        return None;
    }
    assert(all[0] == words@[0]@ && all[8] == words@[8]@);
    match (parse_u64(words[0].as_str(), u64::MAX), parse_u64(words[8].as_str(), u64::MAX)) {
        (Some(received), Some(sent)) => Some((received, sent)),
        _ => None,
    }
}

fn capped_sum(a: u64, b: u64) -> (r: u64)
    ensures
        r == saturating_sum(a, b),
{
    if a > u64::MAX - b {
        u64::MAX
    } else {
        a + b
    }
}

/// The bytes received and sent on all interfaces but the loopback one.
pub fn parse_proc_net_dev(contents: &str) -> (r: (u64, u64))
    ensures
        r == counters(lines_of(contents@)),
{
    let rows = split_lines(contents);
    let ghost all = texts(rows@);
    let mut ingress: u64 = 0;
    let mut egress: u64 = 0;
    let mut i: usize = 0;
    assert(all.take(0) =~= Seq::empty());
    while i < rows.len()
        invariant
            i <= rows@.len(),
            all == texts(rows@),
            (ingress, egress) == counters(all.take(i as int)),
        decreases rows@.len() - i,
    {
        assert(all.take(i + 1).drop_last() =~= all.take(i as int));
        assert(all.take(i + 1).last() == rows@[i as int]@);
        match parse_row(rows[i].as_str()) {
            None => {},
            Some((received, sent)) => {
                ingress = capped_sum(ingress, received);
                egress = capped_sum(egress, sent);
            },
        }
        i = i + 1;
    }
    assert(all.take(i as int) =~= all);
    (ingress, egress)
}

/// The number that hexadecimal digits, after an optional plus sign, spell.
pub open spec fn read_hex(s: Seq<char>) -> Option<nat> {
    let digits = unsigned_part(s);
    if digits.len() == 0 {
        None
    } else {
        match hex_number(digits) {
            Some(n) if n <= u64::MAX => Some(n),
            _ => None,
        }
    }
}

proof fn lemma_hex_grows(s: Seq<char>, n: int)
    requires
        0 <= n <= s.len(),
        match hex_number(s.take(n)) {
            Some(v) => v > u64::MAX,
            None => true,
        },
    ensures
        match hex_number(s) {
            Some(v) => v > u64::MAX,
            None => true,
        },
    decreases s.len(),
{
    if n == s.len() {
        assert(s.take(n) =~= s);
    } else {
        assert(s.drop_last().take(n) =~= s.take(n));
        lemma_hex_grows(s.drop_last(), n);
    }
}

/// The number that hexadecimal digits, after an optional plus sign, spell.
pub fn parse_hex(s: &str) -> (r: Option<u64>)
    ensures
        match r {
            Some(v) => read_hex(s@) == Some(v as nat),
            None => read_hex(s@) is None,
        },
{
    let chars = chars_of(s);
    let n = chars.len();
    let start: usize = if n > 0 && chars[0] == '+' {
        1
    } else {
        0
    };
    let ghost digits = unsigned_part(s@);
    assert(digits =~= s@.skip(start as int));
    if start == n {
        return None;
    }
    let mut value: u64 = 0;
    let mut i: usize = start;
    assert(digits.take(0) =~= Seq::empty());
    while i < n
        invariant
            start <= i <= n,
            start < n,
            n == chars@.len(),
            chars@ == s@,
            digits == unsigned_part(s@),
            digits =~= s@.skip(start as int),
            hex_number(digits.take(i - start)) == Some(value as nat),
        decreases n - i,
    {
        proof {
            assert(digits.take(i + 1 - start).drop_last() =~= digits.take(i - start));
            assert(digits.take(i + 1 - start).last() == chars@[i as int]);
        }
        match hex_digit_value(chars[i]) {
            None => {
                proof {
                    lemma_hex_grows(digits, i + 1 - start);
                }
                return None;
            },
            Some(d) => {
                let wide: u128 = value as u128 * 16 + d as u128;
                if wide > u64::MAX as u128 {
                    proof {
                        lemma_hex_grows(digits, i + 1 - start);
                    }
                    return None;
                }
                value = wide as u64;
            },
        }
        i = i + 1;
    }
    assert(digits.take(n - start) =~= digits);
    Some(value)
}

/// Whether the effective capabilities of a status line let a process administer
/// the network.
pub open spec fn line_grants(value: Seq<char>) -> bool {
    let words = words_of(value);
    words.len() > 0 && (read_hex(words[0]) matches Some(mask) && mask / 4096 % 2 == 1)
}

/// Whether the first line of effective capabilities lets a process administer the
/// network.
pub open spec fn status_grants(lines: Seq<Seq<char>>) -> bool
    decreases lines.len(),
{
    if lines.len() == 0 {
        false
    } else if "CapEff:"@.is_prefix_of(lines[0]) {
        line_grants(lines[0].skip("CapEff:"@.len() as int))
    } else {
        status_grants(lines.drop_first())
    }
}

/// Whether a process with this user and status may administer the network.
pub fn grants_net_admin(effective_uid: u32, status: Option<&String>) -> (r: bool)
    ensures
        r == (effective_uid == 0 || (status matches Some(s) && status_grants(lines_of(s@)))),
{
    if effective_uid == 0 {
        return true;
    }
    match status {
        None => false,
        Some(s) => status_text_grants(s.as_str()),
    }
}

fn status_text_grants(status: &str) -> (r: bool)
    ensures
        r == status_grants(lines_of(status@)),
{
    let lines = split_lines(status);
    let ghost all = texts(lines@);
    let mut i: usize = 0;
    assert(all.skip(0) =~= all);
    while i < lines.len()
        invariant
            i <= lines@.len(),
            all == texts(lines@),
            status_grants(all) == status_grants(all.skip(i as int)),
            all == lines_of(status@),
        decreases lines@.len() - i,
    {
        assert(all.skip(i as int)[0] == lines@[i as int]@);
        assert(all.skip(i as int).drop_first() =~= all.skip(i + 1));
        if starts_with(lines[i].as_str(), "CapEff:") {
            let chars = chars_of(lines[i].as_str());
            proof {
                reveal_strlit("CapEff:");
            }
            let value = string_of(&chars, 7, chars.len());
            assert(value@ =~= lines@[i as int]@.skip(7));
            let words = split_words(value.as_str());
            assert(texts(words@).len() == words@.len());
            if words.len() == 0 {
                return false;
            }
            assert(texts(words@)[0] == words@[0]@);
            return match parse_hex(words[0].as_str()) {
                None => false,
                Some(mask) => mask / 4096 % 2 == 1,
            };
        }
        i = i + 1;
    }
    assert(all.skip(i as int) =~= Seq::empty());
    false
}

proof fn lemma_counters_joined(a: Seq<Seq<char>>, b: Seq<Seq<char>>)
    ensures
        counters(a + b).0 == saturating_sum(counters(a).0, counters(b).0),
        counters(a + b).1 == saturating_sum(counters(a).1, counters(b).1),
    decreases b.len(),
{
    if b.len() == 0 {
        assert(a + b =~= a);
    } else {
        lemma_counters_joined(a, b.drop_last());
        assert((a + b).drop_last() =~= a + b.drop_last());
        assert((a + b).last() == b.last());
    }
}

/// The counters of two tables, one after the other, are the sums of those of each.
pub proof fn law_counters_of_joined_tables(a: Seq<char>, b: Seq<char>)
    requires
        a.len() == 0 || a.last() == '\n',
    ensures
        counters(lines_of(a + b)).0 == saturating_sum(counters(lines_of(a)).0, counters(lines_of(b)).0),
        counters(lines_of(a + b)).1 == saturating_sum(counters(lines_of(a)).1, counters(lines_of(b)).1),
{
    law_lines_of_joined_texts(a, b);
    lemma_counters_joined(lines_of(a), lines_of(b));
}

/// Traffic is summed over the devices: a row adds what it received and what it sent,
/// each to its own sum, and a row that tells nothing adds nothing.
pub proof fn law_traffic_is_summed(rows: Seq<Seq<char>>, row: Seq<char>)
    ensures
        row_counters(row) matches Some((received, sent)) ==> {
            &&& counters(rows).0 + received <= u64::MAX ==> counters(rows.push(row)).0 == counters(rows).0 + received
            &&& counters(rows).1 + sent <= u64::MAX ==> counters(rows.push(row)).1 == counters(rows).1 + sent
        },
        row_counters(row) is None ==> counters(rows.push(row)) == counters(rows),
        counters(Seq::empty()) == (0u64, 0u64),
{
    assert(rows.push(row).drop_last() =~= rows);
}

/// Whether a process may change networks is told by the first line of its effective
/// capabilities.
pub proof fn law_first_capability_line_counts(lines: Seq<Seq<char>>, value: Seq<char>)
    ensures
        status_grants(seq!["CapEff:"@ + value] + lines) == line_grants(value),
        !status_grants(Seq::empty()),
        read_hex(value) matches Some(mask) ==> words_of(value).len() == 1 && words_of(value)[0] == value ==> (
        line_grants(value) <==> mask / 4096 % 2 == 1),
{
    reveal_strlit("CapEff:");
    let head = "CapEff:"@;
    let all = seq![head + value] + lines;
    assert(all[0] == head + value);
    assert((head + value).skip(head.len() as int) =~= value);
    assert((head + value).subrange(0, head.len() as int) =~= head);
    assert(head.is_prefix_of(head + value));
}

} // verus!
