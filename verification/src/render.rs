//! The renderer: turns a field map, or the final statistics, into the
//! output lines of the selected format.
//!
//! JSON output is one compact object per line, keys in the field map's
//! sorted order, with the usual JSON string escapes.  CSV output is a line
//! of double-quoted values joined by a comma and a space; the header line
//! of a run is the sorted field names of the first matched record.

use vstd::prelude::*;
use crate::errors::RunError;
use crate::fields::FieldMap;
use crate::stats::Stats;
use crate::text::{dec_str, spec_dec};

verus! {

/// The character for one hexadecimal digit.
pub open spec fn hex_char(d: nat) -> char {
    if d == 10 {
        'a'
    } else if d == 11 {
        'b'
    } else if d == 12 {
        'c'
    } else if d == 13 {
        'd'
    } else if d == 14 {
        'e'
    } else if d == 15 {
        'f'
    } else {
        crate::text::digit_char(d)
    }
}

/// A character that passes into a JSON string unescaped.
pub open spec fn json_plain(c: char) -> bool {
    c != '"' && c != '\\' && (c as u32) >= 32
}

/// The JSON escape of one character.
pub open spec fn json_escape_char(c: char) -> Seq<char> {
    if c == '"' {
        seq!['\\', '"']
    } else if c == '\\' {
        seq!['\\', '\\']
    } else if c == '\u{8}' {
        seq!['\\', 'b']
    } else if c == '\t' {
        seq!['\\', 't']
    } else if c == '\n' {
        seq!['\\', 'n']
    } else if c == '\u{c}' {
        seq!['\\', 'f']
    } else if c == '\r' {
        seq!['\\', 'r']
    } else if (c as u32) < 32 {
        seq!['\\', 'u', '0', '0', hex_char((c as u32 / 16) as nat), hex_char((c as u32 % 16) as nat)]
    } else {
        seq![c]
    }
}

/// The JSON escape of a whole string body.
pub open spec fn json_escape(s: Seq<char>) -> Seq<char>
    decreases s.len(),
{
    if s.len() == 0 {
        Seq::empty()
    } else {
        json_escape(s.drop_last()) + json_escape_char(s.last())
    }
}

/// A JSON string literal: the escaped body in double quotes.
pub open spec fn json_string(s: Seq<char>) -> Seq<char> {
    seq!['"'] + json_escape(s) + seq!['"']
}

/// One `"key":"value"` member.
pub open spec fn json_member(e: (Seq<char>, Seq<char>)) -> Seq<char> {
    json_string(e.0) + seq![':'] + json_string(e.1)
}

/// The members of an object, comma-separated, in entry order.
pub open spec fn json_members(s: Seq<(Seq<char>, Seq<char>)>) -> Seq<char>
    decreases s.len(),
{
    if s.len() == 0 {
        Seq::empty()
    } else if s.len() == 1 {
        json_member(s[0])
    } else {
        json_members(s.drop_last()) + seq![','] + json_member(s.last())
    }
}

/// The compact JSON object of an entry sequence.
pub open spec fn json_of_entries(s: Seq<(Seq<char>, Seq<char>)>) -> Seq<char> {
    seq!['{'] + json_members(s) + seq!['}']
}

/// The compact JSON object of the final statistics.
pub open spec fn json_of_stats(parsed: nat, failed: nat) -> Seq<char> {
    "{\"parsed\":"@ + spec_dec(parsed) + ",\"failed\":"@ + spec_dec(failed) + "}"@
}

/// One double-quoted CSV cell.  Values pass through verbatim, as the
/// format of this pipeline defines them.
pub open spec fn csv_quoted(v: Seq<char>) -> Seq<char> {
    seq!['"'] + v + seq!['"']
}

/// A CSV line: quoted cells joined by a comma and a space.
pub open spec fn csv_row(vals: Seq<Seq<char>>) -> Seq<char>
    decreases vals.len(),
{
    if vals.len() == 0 {
        Seq::empty()
    } else if vals.len() == 1 {
        csv_quoted(vals[0])
    } else {
        csv_row(vals.drop_last()) + seq![',', ' '] + csv_quoted(vals.last())
    }
}

/// The keys of an entry sequence.
pub open spec fn entry_keys(s: Seq<(Seq<char>, Seq<char>)>) -> Seq<Seq<char>> {
    s.map_values(|e: (Seq<char>, Seq<char>)| e.0)
}

/// The values of an entry sequence.
pub open spec fn entry_values(s: Seq<(Seq<char>, Seq<char>)>) -> Seq<Seq<char>> {
    s.map_values(|e: (Seq<char>, Seq<char>)| e.1)
}

/// Escaping distributes over concatenation.
pub proof fn lemma_escape_concat(a: Seq<char>, b: Seq<char>)
    ensures
        json_escape(a + b) == json_escape(a) + json_escape(b),
    decreases b.len(),
{
    if b.len() == 0 {
        assert(a + b =~= a);
        assert(json_escape(a) + json_escape(b) =~= json_escape(a));
    } else {
        lemma_escape_concat(a, b.drop_last());
        assert((a + b).drop_last() =~= a + b.drop_last());
        assert((a + b).last() == b.last());
        assert(json_escape(a) + (json_escape(b.drop_last()) + json_escape_char(b.last()))
            =~= json_escape(a) + json_escape(b.drop_last()) + json_escape_char(b.last()));
    }
}

/// A run of plain characters escapes to itself.
pub proof fn lemma_escape_plain(s: Seq<char>)
    requires
        forall|i: int| 0 <= i < s.len() ==> json_plain(#[trigger] s[i]),
    ensures
        json_escape(s) == s,
    decreases s.len(),
{
    if s.len() > 0 {
        lemma_escape_plain(s.drop_last());
        assert(json_escape_char(s.last()) == seq![s.last()]);
        assert(json_escape(s.drop_last()) + seq![s.last()] =~= s);
    }
}

fn hex_str(d: u32) -> (r: &'static str)
    requires
        d < 16,
    ensures
        r@ =~= seq![hex_char(d as nat)],
{
    proof {
        reveal_strlit("0");
        reveal_strlit("1");
        reveal_strlit("2");
        reveal_strlit("3");
        reveal_strlit("4");
        reveal_strlit("5");
        reveal_strlit("6");
        reveal_strlit("7");
        reveal_strlit("8");
        reveal_strlit("9");
        reveal_strlit("a");
        reveal_strlit("b");
        reveal_strlit("c");
        reveal_strlit("d");
        reveal_strlit("e");
        reveal_strlit("f");
    }
    match d {
        0 => "0",
        1 => "1",
        2 => "2",
        3 => "3",
        4 => "4",
        5 => "5",
        6 => "6",
        7 => "7",
        8 => "8",
        9 => "9",
        10 => "a",
        11 => "b",
        12 => "c",
        13 => "d",
        14 => "e",
        _ => "f",
    }
}

/// Appends the JSON escape of one non-plain character.
fn append_escaped_char(out: &mut String, c: char)
    requires
        !json_plain(c),
    ensures
        final(out)@ == old(out)@ + json_escape_char(c),
{
    if c == '"' {
        proof {
            reveal_strlit("\\\"");
        }
        out.append("\\\"");
        assert(final(out)@ =~= old(out)@ + json_escape_char(c));
    } else if c == '\\' {
        proof {
            reveal_strlit("\\\\");
        }
        out.append("\\\\");
        assert(final(out)@ =~= old(out)@ + json_escape_char(c));
    } else if c == '\u{8}' {
        proof {
            reveal_strlit("\\b");
        }
        out.append("\\b");
        assert(final(out)@ =~= old(out)@ + json_escape_char(c));
    } else if c == '\t' {
        proof {
            reveal_strlit("\\t");
        }
        out.append("\\t");
        assert(final(out)@ =~= old(out)@ + json_escape_char(c));
    } else if c == '\n' {
        proof {
            reveal_strlit("\\n");
        }
        out.append("\\n");
        assert(final(out)@ =~= old(out)@ + json_escape_char(c));
    } else if c == '\u{c}' {
        proof {
            reveal_strlit("\\f");
        }
        out.append("\\f");
        assert(final(out)@ =~= old(out)@ + json_escape_char(c));
    } else if c == '\r' {
        proof {
            reveal_strlit("\\r");
        }
        out.append("\\r");
        assert(final(out)@ =~= old(out)@ + json_escape_char(c));
    } else {
        let u = c as u32;
        proof {
            reveal_strlit("\\u00");
        }
        out.append("\\u00");
        out.append(hex_str(u / 16));
        out.append(hex_str(u % 16));
        assert(final(out)@ =~= old(out)@ + json_escape_char(c));
    }
}

/// Appends `s` as a JSON string literal.
fn append_json_string(out: &mut String, s: &str)
    ensures
        final(out)@ == old(out)@ + json_string(s@),
{
    let ghost base = out@;
    proof {
        reveal_strlit("\"");
    }
    out.append("\"");
    let len: usize = s.unicode_len();
    let mut i: usize = 0;
    let mut run: usize = 0;
    proof {
        assert(s@.take(0) =~= Seq::<char>::empty());
        assert(out@ =~= base + seq!['"'] + json_escape(s@.take(0)));
    }
    while i < len
        invariant
            run <= i <= len,
            len == s@.len(),
            out@ == base + seq!['"'] + json_escape(s@.take(run as int)),
            forall|j: int| run <= j < i ==> json_plain(#[trigger] s@[j]),
        decreases len - i,
    {
        let c = s.get_char(i);
        let plain = c != '"' && c != '\\' && (c as u32) >= 32;
        if !plain {
            out.append(s.substring_char(run, i));
            append_escaped_char(out, c);
            proof {
                let pre = s@.take(run as int);
                let mid = s@.subrange(run as int, i as int);
                lemma_escape_plain(mid);
                lemma_escape_concat(pre, mid);
                assert(s@.take(i as int) =~= pre + mid);
                lemma_escape_concat(s@.take(i as int), seq![c]);
                assert(s@.take(i as int) + seq![c] =~= s@.take(i as int + 1));
                assert(seq![c].drop_last() =~= Seq::<char>::empty());
                assert(seq![c].last() == c);
                assert(json_escape(Seq::<char>::empty()) =~= Seq::<char>::empty());
                assert(Seq::<char>::empty() + json_escape_char(c) =~= json_escape_char(c));
                assert(json_escape(seq![c]) == json_escape_char(c));
                assert(out@ =~= base + seq!['"'] + json_escape(s@.take(i as int + 1)));
            }
            run = i + 1;
        }
        i = i + 1;
    }
    out.append(s.substring_char(run, len));
    out.append("\"");
    proof {
        lemma_escape_plain(s@.subrange(run as int, len as int));
        lemma_escape_concat(s@.take(run as int), s@.subrange(run as int, len as int));
        assert(s@.take(run as int) + s@.subrange(run as int, len as int) =~= s@);
        assert(final(out)@ =~= base + json_string(s@));
    }
}

/// Renders a field map as one compact JSON object, keys in the map's
/// sorted order.
pub fn render_json_map(m: &FieldMap) -> (r: String)
    ensures
        r@ == json_of_entries(m.view_seq()),
{
    let ghost s = m.view_seq();
    proof {
        reveal_strlit("{");
        reveal_strlit("}");
        reveal_strlit(":");
        reveal_strlit(",");
    }
    let mut out = String::from_str("{");
    let n = m.len();
    let mut i: usize = 0;
    proof {
        assert(s.take(0) =~= Seq::<(Seq<char>, Seq<char>)>::empty());
        assert(out@ =~= seq!['{'] + json_members(s.take(0)));
    }
    while i < n
        invariant
            i <= n,
            n == s.len(),
            s == m.view_seq(),
            out@ == seq!['{'] + json_members(s.take(i as int)),
        decreases n - i,
    {
        if i > 0 {
            out.append(",");
        }
        append_json_string(&mut out, m.key_at(i).as_str());
        out.append(":");
        append_json_string(&mut out, m.value_at(i).as_str());
        proof {
            reveal_strlit(",");
            reveal_strlit(":");
            let t = s.take(i as int + 1);
            assert(t.drop_last() =~= s.take(i as int));
            assert(t.last() == s[i as int]);
            if i == 0 {
                assert(t[0] == s[0]);
                assert(json_members(t) == json_member(s[0]));
                assert(json_members(s.take(0)) =~= Seq::<char>::empty());
            } else {
                assert(json_members(t) == json_members(s.take(i as int)) + seq![','] + json_member(
                    s[i as int],
                ));
            }
            assert(out@ =~= seq!['{'] + json_members(t));
        }
        i = i + 1;
    }
    out.append("}");
    proof {
        assert(s.take(n as int) =~= s);
        assert(out@ =~= json_of_entries(s));
    }
    out
}

/// Renders the values of a field map as one CSV data line, in the map's
/// sorted-key iteration order.
pub fn render_csv_values(m: &FieldMap) -> (r: String)
    ensures
        r@ == csv_row(entry_values(m.view_seq())),
{
    let ghost vals = entry_values(m.view_seq());
    let n = m.len();
    let mut out = String::new();
    let mut i: usize = 0;
    proof {
        reveal_strlit("\"");
        reveal_strlit(", ");
        assert(vals.take(0) =~= Seq::<Seq<char>>::empty());
        assert(out@ =~= csv_row(vals.take(0)));
    }
    while i < n
        invariant
            i <= n,
            n == m.view_seq().len(),
            vals == entry_values(m.view_seq()),
            vals.len() == n,
            out@ == csv_row(vals.take(i as int)),
        decreases n - i,
    {
        if i > 0 {
            out.append(", ");
        }
        out.append("\"");
        out.append(m.value_at(i).as_str());
        out.append("\"");
        proof {
            reveal_strlit("\"");
            reveal_strlit(", ");
            assert(vals[i as int] == m.view_seq()[i as int].1);
            let t = vals.take(i as int + 1);
            assert(t.drop_last() =~= vals.take(i as int));
            assert(t.last() == vals[i as int]);
            if i == 0 {
                assert(t[0] == vals[0]);
                assert(csv_row(t) == csv_quoted(vals[0]));
                assert(csv_row(vals.take(0)) =~= Seq::<char>::empty());
            } else {
                assert(csv_row(t) == csv_row(vals.take(i as int)) + seq![',', ' '] + csv_quoted(
                    vals[i as int],
                ));
            }
            assert(out@ =~= csv_row(t));
        }
        i = i + 1;
    }
    proof {
        assert(vals.take(n as int) =~= vals);
    }
    out
}

/// Renders a CSV line of quoted cells from a list of strings (used for
/// the header of a run).
pub fn render_csv_cells(cells: &Vec<String>) -> (r: String)
    ensures
        r@ == csv_row(cells@.map_values(|c: String| c@)),
{
    let ghost vals = cells@.map_values(|c: String| c@);
    let n = cells.len();
    let mut out = String::new();
    let mut i: usize = 0;
    proof {
        reveal_strlit("\"");
        reveal_strlit(", ");
        assert(vals.take(0) =~= Seq::<Seq<char>>::empty());
        assert(out@ =~= csv_row(vals.take(0)));
    }
    while i < n
        invariant
            i <= n,
            n == cells@.len(),
            vals == cells@.map_values(|c: String| c@),
            vals.len() == n,
            out@ == csv_row(vals.take(i as int)),
        decreases n - i,
    {
        if i > 0 {
            out.append(", ");
        }
        out.append("\"");
        out.append(cells[i].as_str());
        out.append("\"");
        proof {
            reveal_strlit("\"");
            reveal_strlit(", ");
            assert(vals[i as int] == cells@[i as int]@);
            let t = vals.take(i as int + 1);
            assert(t.drop_last() =~= vals.take(i as int));
            assert(t.last() == vals[i as int]);
            if i == 0 {
                assert(t[0] == vals[0]);
                assert(csv_row(t) == csv_quoted(vals[0]));
                assert(csv_row(vals.take(0)) =~= Seq::<char>::empty());
            } else {
                assert(csv_row(t) == csv_row(vals.take(i as int)) + seq![',', ' '] + csv_quoted(
                    vals[i as int],
                ));
            }
            assert(out@ =~= csv_row(t));
        }
        i = i + 1;
    }
    proof {
        assert(vals.take(n as int) =~= vals);
    }
    out
}

/// The output format of a run: exactly one is active.
#[derive(Clone, Copy, Debug, PartialEq, Eq, Structural)]
pub enum OutputFormat {
    /// One compact JSON object per input line.
    Json,
    /// CSV lines of double-quoted values.
    Csv,
}

impl OutputFormat {
    /// Renders one successfully matched record as the line of the selected
    /// format.  In this pipeline rendering is total: a matched record
    /// always has a rendering, so no serialization failure can arise.
    pub fn handle_parsed(&self, parsed: &FieldMap) -> (r: String)
        ensures
            self is Json ==> r@ == json_of_entries(parsed.view_seq()),
            self is Csv ==> r@ == csv_row(entry_values(parsed.view_seq())),
    {
        match self {
            OutputFormat::Json => render_json_map(parsed),
            OutputFormat::Csv => render_csv_values(parsed),
        }
    }

    /// Renders the final statistics as the lines of the selected format:
    /// one JSON object, or a fixed CSV header followed by one data row.
    pub fn handle_stats(&self, stats: &Stats) -> (r: Vec<String>)
        ensures
            self is Json ==> r@.len() == 1 && r@[0]@ == json_of_stats(
                stats.parsed as nat,
                stats.failed as nat,
            ),
            self is Csv ==> r@.len() == 2 && r@[0]@ == csv_row(
                seq!["parsed"@, "failed"@],
            ) && r@[1]@ == csv_row(seq![spec_dec(stats.parsed as nat), spec_dec(stats.failed as nat)]),
    {
        let mut lines: Vec<String> = Vec::new();
        match self {
            OutputFormat::Json => {
                let mut out = String::from_str("{\"parsed\":");
                out.append(dec_str(stats.parsed).as_str());
                out.append(",\"failed\":");
                out.append(dec_str(stats.failed).as_str());
                out.append("}");
                lines.push(out);
            },
            OutputFormat::Csv => {
                let mut header: Vec<String> = Vec::new();
                header.push(String::from_str("parsed"));
                header.push(String::from_str("failed"));
                let head_line = render_csv_cells(&header);
                proof {
                    assert(header@.map_values(|c: String| c@) =~= seq!["parsed"@, "failed"@]);
                }
                lines.push(head_line);
                let mut row: Vec<String> = Vec::new();
                row.push(dec_str(stats.parsed));
                row.push(dec_str(stats.failed));
                let row_line = render_csv_cells(&row);
                proof {
                    assert(row@.map_values(|c: String| c@) =~= seq![
                        spec_dec(stats.parsed as nat),
                        spec_dec(stats.failed as nat),
                    ]);
                }
                lines.push(row_line);
            },
        }
        lines
    }
}

/// Case folding of one character, by code point, for ASCII letters only.
pub open spec fn lower_u(c: char) -> u32 {
    if 65 <= c as u32 <= 90 {
        (c as u32 + 32) as u32
    } else {
        c as u32
    }
}

/// `a` is `b` up to ASCII case folding of `a` (with `b` already folded).
pub open spec fn folds_to(a: Seq<char>, b: Seq<char>) -> bool {
    a.len() == b.len() && forall|i: int| 0 <= i < a.len() ==> lower_u(#[trigger] a[i]) == b[i] as u32
}

fn eq_fold(a: &str, b: &str) -> (r: bool)
    ensures
        r == folds_to(a@, b@),
{
    let alen: usize = a.unicode_len();
    let blen: usize = b.unicode_len();
    if alen != blen {
        return false;
    }
    let mut i: usize = 0;
    while i < alen
        invariant
            i <= alen,
            alen == a@.len(),
            blen == b@.len(),
            alen == blen,
            forall|j: int| 0 <= j < i ==> lower_u(#[trigger] a@[j]) == b@[j] as u32,
        decreases alen - i,
    {
        let ua = a.get_char(i) as u32;
        let la: u32 = if 65 <= ua && ua <= 90 {
            ua + 32
        } else {
            ua
        };
        if la != b.get_char(i) as u32 {
            return false;
        }
        i = i + 1;
    }
    true
}

/// Parses the name of an output format, ASCII case-insensitively:
/// `"json"` (any casing) selects JSON, `"csv"` selects CSV, and anything
/// else is a configuration error.
pub fn parse_format(src: &str) -> (r: Result<OutputFormat, RunError>)
    ensures
        r == Ok::<OutputFormat, RunError>(OutputFormat::Json) <==> folds_to(src@, "json"@),
        r == Ok::<OutputFormat, RunError>(OutputFormat::Csv) <==> folds_to(src@, "csv"@),
        r matches Err(e) ==> (e matches RunError::Config(m) && m@
            == "unable to parse output format: "@ + src@),
{
    let json_ok = eq_fold(src, "json");
    let csv_ok = eq_fold(src, "csv");
    proof {
        if folds_to(src@, "json"@) && folds_to(src@, "csv"@) {
            reveal_strlit("json");
            reveal_strlit("csv");
            assert(false);
        }
    }
    if json_ok {
        Ok(OutputFormat::Json)
    } else if csv_ok {
        Ok(OutputFormat::Csv)
    } else {
        let mut msg = String::from_str("unable to parse output format: ");
        msg.append(src);
        Err(RunError::Config(msg))
    }
}

/// A string of characters that all pass into JSON unescaped.
pub open spec fn all_plain(v: Seq<char>) -> bool {
    forall|t: int| 0 <= t < v.len() ==> json_plain(#[trigger] v[t])
}

/// Entries whose names and values need no JSON escapes.
pub open spec fn entries_plain(m: Seq<(Seq<char>, Seq<char>)>) -> bool {
    forall|i: int| 0 <= i < m.len() ==> all_plain((#[trigger] m[i]).0) && all_plain(m[i].1)
}

/// `s` is the rendering of the sorted, escape-free entry sequence `m`.
pub open spec fn renders_to(m: Seq<(Seq<char>, Seq<char>)>, s: Seq<char>) -> bool {
    crate::fields::sorted_entries(m) && entries_plain(m) && s == json_of_entries(m)
}

/// Where the `k`-th member begins inside the rendered object.
pub open spec fn member_start(m: Seq<(Seq<char>, Seq<char>)>, k: int) -> int {
    1 + json_members(m.take(k)).len() + if k > 0 {
        1int
    } else {
        0int
    }
}

/// The member list splits at any interior position, with one separator
/// between the two halves.
proof fn lemma_members_split(m: Seq<(Seq<char>, Seq<char>)>, k: int)
    requires
        0 < k < m.len(),
    ensures
        json_members(m) == json_members(m.take(k)) + seq![','] + json_members(m.skip(k)),
    decreases m.len(),
{
    if k == m.len() - 1 {
        assert(m.take(k) =~= m.drop_last());
        assert(m.skip(k) =~= seq![m.last()]);
        assert(seq![m.last()][0] == m.last());
        assert(json_members(seq![m.last()]) == json_member(m.last()));
    } else {
        let d = m.drop_last();
        lemma_members_split(d, k);
        assert(d.take(k) =~= m.take(k));
        assert(m.skip(k).drop_last() =~= d.skip(k));
        assert(m.skip(k).last() == m.last());
        assert(m.skip(k).len() >= 2);
        assert(json_members(m.skip(k)) == json_members(d.skip(k)) + seq![','] + json_member(
            m.last(),
        ));
        assert(json_members(m) == json_members(d) + seq![','] + json_member(m.last()));
        assert(json_members(m.take(k)) + seq![','] + (json_members(d.skip(k)) + seq![',']
            + json_member(m.last())) =~= (json_members(d.take(k)) + seq![','] + json_members(
            d.skip(k),
        )) + seq![','] + json_member(m.last()));
    }
}

/// The first member stands at the front of the member list.
proof fn lemma_members_head(u: Seq<(Seq<char>, Seq<char>)>)
    requires
        u.len() > 0,
    ensures
        json_members(u) == json_member(u[0]) + (if u.len() == 1 {
            Seq::<char>::empty()
        } else {
            seq![','] + json_members(u.skip(1))
        }),
{
    if u.len() == 1 {
        assert(json_members(u) == json_member(u[0]));
        assert(json_member(u[0]) + Seq::<char>::empty() =~= json_member(u[0]));
    } else {
        lemma_members_split(u, 1);
        assert(u.take(1) =~= seq![u[0]]);
        assert(seq![u[0]][0] == u[0]);
        assert(json_members(seq![u[0]]) == json_member(u[0]));
        assert(json_member(u[0]) + seq![','] + json_members(u.skip(1)) =~= json_member(u[0]) + (
        seq![','] + json_members(u.skip(1))));
    }
}

/// The rendered object around its `k`-th member: what comes before it,
/// the member itself, and what follows.
proof fn lemma_entry_window(m: Seq<(Seq<char>, Seq<char>)>, k: int)
    requires
        0 <= k < m.len(),
    ensures
        json_of_entries(m) == (seq!['{'] + json_members(m.take(k)) + (if k > 0 {
            seq![',']
        } else {
            Seq::<char>::empty()
        })) + json_member(m[k]) + ((if k + 1 < m.len() {
            seq![','] + json_members(m.skip(k + 1))
        } else {
            Seq::<char>::empty()
        }) + seq!['}']),
{
    if k == 0 {
        lemma_members_head(m);
        if m.len() == 1 {
            assert(seq!['{'] + json_members(m) + seq!['}'] =~= (seq!['{'] + json_members(m.take(0))
                + Seq::<char>::empty()) + json_member(m[0]) + (Seq::<char>::empty() + seq!['}']));
        } else {
            assert(m.skip(0int + 1) =~= m.skip(1));
            assert(seq!['{'] + json_members(m) + seq!['}'] =~= (seq!['{'] + json_members(m.take(0))
                + Seq::<char>::empty()) + json_member(m[0]) + ((seq![','] + json_members(m.skip(1)))
                + seq!['}']));
        }
    } else {
        lemma_members_split(m, k);
        lemma_members_head(m.skip(k));
        assert(m.skip(k)[0] == m[k]);
        assert(m.skip(k).skip(1) =~= m.skip(k + 1));
        if m.skip(k).len() == 1 {
            assert(k + 1 == m.len());
            assert(seq!['{'] + json_members(m) + seq!['}'] =~= (seq!['{'] + json_members(m.take(k))
                + seq![',']) + json_member(m[k]) + (Seq::<char>::empty() + seq!['}']));
        } else {
            assert(k + 1 < m.len());
            assert(seq!['{'] + json_members(m) + seq!['}'] =~= (seq!['{'] + json_members(m.take(k))
                + seq![',']) + json_member(m[k]) + ((seq![','] + json_members(m.skip(k + 1)))
                + seq!['}']));
        }
    }
}

/// An escape-free member rendered out in full.
proof fn lemma_member_plain(e: (Seq<char>, Seq<char>))
    requires
        all_plain(e.0),
        all_plain(e.1),
    ensures
        json_member(e) == seq!['"'] + e.0 + seq!['"', ':', '"'] + e.1 + seq!['"'],
        json_member(e).len() == e.0.len() + e.1.len() + 5,
{
    lemma_escape_plain(e.0);
    lemma_escape_plain(e.1);
    assert(json_member(e) =~= seq!['"'] + e.0 + seq!['"', ':', '"'] + e.1 + seq!['"']);
}

/// Each member of the rendered object, read off the rendering: the
/// quotes, colon and separator stand at fixed offsets from the member's
/// start, the name and the value are plain runs between them.
#[verifier::rlimit(100)]
#[verifier::spinoff_prover]
proof fn lemma_window_facts(m: Seq<(Seq<char>, Seq<char>)>, s: Seq<char>, k: int)
    requires
        renders_to(m, s),
        0 <= k < m.len(),
    ensures
        ({
            let i0 = member_start(m, k);
            let key = m[k].0;
            let val = m[k].1;
            &&& json_member(m[k]).len() == key.len() + val.len() + 5
            &&& i0 + key.len() + val.len() + 5 < s.len()
            &&& s[i0] == '"'
            &&& plain_span_to_quote(s, i0, i0 + 1 + key.len())
            &&& s.subrange(i0 + 1, i0 + 1 + key.len()) == key
            &&& s[i0 + key.len() + 2] == ':'
            &&& s[i0 + key.len() + 3] == '"'
            &&& plain_span_to_quote(s, i0 + key.len() + 3, i0 + key.len() + 4 + val.len())
            &&& s.subrange(i0 + key.len() + 4, i0 + key.len() + 4 + val.len()) == val
            &&& (k + 1 < m.len() ==> s[i0 + key.len() + val.len() + 5] == ',')
            &&& (k + 1 == m.len() ==> s[i0 + key.len() + val.len() + 5] == '}')
            &&& (k + 1 == m.len() ==> i0 + key.len() + val.len() + 6 == s.len())
        }),
{
    let i0 = member_start(m, k);
    let key = m[k].0;
    let val = m[k].1;
    lemma_entry_window(m, k);
    lemma_member_plain(m[k]);
    let pre = seq!['{'] + json_members(m.take(k)) + (if k > 0 {
        seq![',']
    } else {
        Seq::<char>::empty()
    });
    let mem = json_member(m[k]);
    let post = (if k + 1 < m.len() {
        seq![','] + json_members(m.skip(k + 1))
    } else {
        Seq::<char>::empty()
    }) + seq!['}'];
    assert(s =~= pre + mem + post);
    assert(pre.len() == i0);
    assert(mem =~= seq!['"'] + key + seq!['"', ':', '"'] + val + seq!['"']);
    assert forall|t: int| 0 <= t < mem.len() implies s[i0 + t] == mem[t] by {
        assert((pre + mem + post)[pre.len() + t] == mem[t]);
    }
    assert(mem[0] == '"');
    assert forall|t: int| 0 <= t < key.len() implies mem[1 + t] == key[t] by {
        assert((seq!['"'] + key)[1 + t] == key[t]);
    }
    assert(mem[1 + key.len() as int] == '"');
    assert(mem[2 + key.len() as int] == ':');
    assert(mem[3 + key.len() as int] == '"');
    assert forall|t: int| 0 <= t < val.len() implies mem[key.len() + 4 + t] == val[t] by {
        assert((seq!['"'] + key + seq!['"', ':', '"'] + val)[key.len() + 4 + t] == val[t]);
    }
    assert(mem[key.len() + val.len() + 4int] == '"');
    assert forall|t: int| i0 < t < i0 + 1 + key.len() implies json_plain(s[t]) by {
        assert(s[t] == mem[t - i0]);
        assert(mem[t - i0] == key[t - i0 - 1]);
        assert(all_plain(key));
    }
    assert(s.subrange(i0 + 1, i0 + 1 + key.len()) =~= key);
    assert forall|t: int| i0 + key.len() + 3 < t < i0 + key.len() + 4 + val.len() implies
        json_plain(s[t]) by {
        assert(s[t] == mem[t - i0]);
        assert(mem[t - i0] == val[t - i0 - key.len() - 4]);
        assert(all_plain(val));
    }
    assert(s.subrange(i0 + key.len() + 4, i0 + key.len() + 4 + val.len()) =~= val);
    assert(s[pre.len() + mem.len() as int] == post[0]);
    if k + 1 < m.len() {
        assert(post[0] == ',');
    } else {
        assert(post[0] == '}');
        assert(post.len() == 1);
    }
}

/// Consuming one member and its separator moves the cursor to the start
/// of the next member.
proof fn lemma_member_start_next(m: Seq<(Seq<char>, Seq<char>)>, k: int)
    requires
        0 <= k < m.len(),
    ensures
        member_start(m, k + 1) == member_start(m, k) + json_member(m[k]).len() + 1,
{
    let t = m.take(k + 1);
    assert(t.drop_last() =~= m.take(k));
    assert(t.last() == m[k]);
    if k == 0 {
        assert(json_members(t) == json_member(m[0]));
        assert(json_members(m.take(0)).len() == 0) by {
            assert(m.take(0) =~= Seq::<(Seq<char>, Seq<char>)>::empty());
        }
    } else {
        assert(json_members(t) == json_members(m.take(k)) + seq![','] + json_member(m[k]));
    }
}

/// A quote at `j` closing a run of plain characters that begins right
/// after `start`.
pub open spec fn plain_span_to_quote(s: Seq<char>, start: int, j: int) -> bool {
    start < j < s.len() && s[j] == '"' && (forall|t: int|
        start < t < j ==> json_plain(#[trigger] s[t]))
}

/// Scans one JSON string literal starting at `start`, handling the named
/// escapes the renderer emits for quotes, backslashes and the common
/// control characters.  On a quoted run of plain characters the scan is
/// guaranteed to succeed and to return exactly that run.
fn scan_string(s: &str, start: usize) -> (r: Option<(String, usize)>)
    requires
        start <= s@.len(),
    ensures
        r matches Some(p) ==> start < p.1 <= s@.len(),
        (start < s@.len() && s@[start as int] == '"') ==> forall|j: int|
            plain_span_to_quote(s@, start as int, j) ==> (r matches Some(p) && p.0@
                == s@.subrange(start as int + 1, j) && p.1 == j + 1),
{
    let len: usize = s.unicode_len();
    if start >= len {
        return None;
    }
    if s.get_char(start) != '"' {
        return None;
    }
    let mut out = String::new();
    let mut i: usize = start + 1;
    let mut run: usize = i;
    while i < len
        invariant
            start + 1 <= run <= i <= len,
            len == s@.len(),
            s@[start as int] == '"',
            forall|j: int| plain_span_to_quote(s@, start as int, j) ==> (i <= j && out@
                =~= Seq::<char>::empty() && run == start + 1),
        decreases len - i,
    {
        let c = s.get_char(i);
        if c == '"' {
            proof {
                assert forall|j: int| plain_span_to_quote(s@, start as int, j) implies i == j by {
                    if i < j {
                        assert(json_plain(s@[i as int]));
                    }
                }
            }
            out.append(s.substring_char(run, i));
            return Some((out, i + 1));
        } else if c == '\\' {
            proof {
                assert forall|j: int| !plain_span_to_quote(s@, start as int, j) by {
                    if plain_span_to_quote(s@, start as int, j) {
                        if i < j {
                            assert(json_plain(s@[i as int]));
                        }
                    }
                }
            }
            out.append(s.substring_char(run, i));
            if i + 1 >= len {
                return None;
            }
            let e = s.get_char(i + 1);
            let frag: &'static str = match e {
                '"' => "\"",
                '\\' => "\\",
                'b' => "\u{8}",
                't' => "\t",
                'n' => "\n",
                'f' => "\u{c}",
                'r' => "\r",
                _ => {
                    return None;
                },
            };
            out.append(frag);
            i = i + 2;
            run = i;
        } else {
            i = i + 1;
        }
    }
    None
}

/// Re-parses one rendered JSON line into a field map.  A line is accepted
/// only if rendering the scanned map reproduces it exactly, so whatever
/// this function returns is precisely the map whose rendering the input
/// is; and on the rendering of any sorted map whose names and values need
/// no escapes, the parse succeeds and returns exactly that map.
#[verifier::rlimit(100)]
pub fn parse_json_line(s: &str) -> (r: Option<FieldMap>)
    ensures
        r matches Some(fm) ==> fm.wf() && s@ == json_of_entries(fm.view_seq()),
        forall|m: Seq<(Seq<char>, Seq<char>)>| renders_to(m, s@) ==> (r matches Some(fm)
            && fm.view_seq() == m),
{
    let len: usize = s.unicode_len();
    if len < 2 {
        proof {
            assert forall|m: Seq<(Seq<char>, Seq<char>)>| !renders_to(m, s@) by {
                if renders_to(m, s@) {
                    assert(s@.len() == 2 + json_members(m).len());
                }
            }
        }
        return None;
    }
    if s.get_char(0) != '{' {
        proof {
            assert forall|m: Seq<(Seq<char>, Seq<char>)>| !renders_to(m, s@) by {
                if renders_to(m, s@) {
                    assert(s@[0] == seq!['{'][0]);
                }
            }
        }
        return None;
    }
    let mut pairs: Vec<(String, String)> = Vec::new();
    let mut i: usize = 1;
    if s.get_char(1) == '}' {
        i = 2;
        proof {
            assert forall|m: Seq<(Seq<char>, Seq<char>)>| renders_to(m, s@) implies m.len() == 0
                && crate::fields::pair_views(pairs@) == m && i == s@.len() by {
                if m.len() > 0 {
                    lemma_entry_window(m, 0);
                    lemma_member_plain(m[0]);
                    assert(m.take(0) =~= Seq::<(Seq<char>, Seq<char>)>::empty());
                    let pre = seq!['{'] + json_members(m.take(0)) + Seq::<char>::empty();
                    assert(pre.len() == 1);
                    assert(s@[1] == json_member(m[0])[0]);
                    assert(json_member(m[0])[0] == '"');
                }
                assert(crate::fields::pair_views(pairs@) =~= m);
                assert(s@.len() == 2 + json_members(m).len());
            }
        }
    } else {
        let mut done = false;
        proof {
            assert forall|m: Seq<(Seq<char>, Seq<char>)>| renders_to(m, s@) implies m.len() > 0
                && crate::fields::pair_views(pairs@) == m.take(0) && member_start(m, 0) == 1 by {
                if m.len() == 0 {
                    assert(json_members(m).len() == 0);
                    assert(s@[1] == seq!['}'][0]);
                }
                assert(crate::fields::pair_views(pairs@) =~= m.take(0));
                assert(m.take(0) =~= Seq::<(Seq<char>, Seq<char>)>::empty());
            }
        }
        while !done
            invariant
                1 <= i <= len,
                len == s@.len(),
                forall|m: Seq<(Seq<char>, Seq<char>)>| renders_to(m, s@) ==> (if done {
                    crate::fields::pair_views(pairs@) == m && i == s@.len()
                } else {
                    pairs@.len() < m.len() && crate::fields::pair_views(pairs@) == m.take(
                        pairs@.len() as int,
                    ) && i == member_start(m, pairs@.len() as int)
                }),
            decreases len - i,
        {
            let ghost k = pairs@.len() as int;
            let ghost i0 = i as int;
            // ---- the name ----
            let key = match scan_string(s, i) {
                None => {
                    proof {
                        assert forall|m: Seq<(Seq<char>, Seq<char>)>| !renders_to(m, s@) by {
                            if renders_to(m, s@) {
                                lemma_window_facts(m, s@, k);
                            }
                        }
                    }
                    return None;
                },
                Some(p) => {
                    i = p.1;
                    p.0
                },
            };
            proof {
                assert forall|m: Seq<(Seq<char>, Seq<char>)>| renders_to(m, s@) implies key@
                    == m[k].0 && i == i0 + m[k].0.len() + 2 && i < len by {
                    lemma_window_facts(m, s@, k);
                }
            }
            // ---- the separator between name and value ----
            if i >= len || s.get_char(i) != ':' {
                proof {
                    assert forall|m: Seq<(Seq<char>, Seq<char>)>| !renders_to(m, s@) by {
                        if renders_to(m, s@) {
                            lemma_window_facts(m, s@, k);
                        }
                    }
                }
                return None;
            }
            i = i + 1;
            // ---- the value ----
            let val = match scan_string(s, i) {
                None => {
                    proof {
                        assert forall|m: Seq<(Seq<char>, Seq<char>)>| !renders_to(m, s@) by {
                            if renders_to(m, s@) {
                                lemma_window_facts(m, s@, k);
                            }
                        }
                    }
                    return None;
                },
                Some(p) => {
                    i = p.1;
                    p.0
                },
            };
            proof {
                assert forall|m: Seq<(Seq<char>, Seq<char>)>| renders_to(m, s@) implies val@
                    == m[k].1 && i == i0 + m[k].0.len() + m[k].1.len() + 5 && i < len by {
                    lemma_window_facts(m, s@, k);
                }
            }
            pairs.push((key, val));
            proof {
                assert forall|m: Seq<(Seq<char>, Seq<char>)>| renders_to(m, s@) implies
                    crate::fields::pair_views(pairs@) == m.take(k + 1) by {
                    assert(crate::fields::pair_views(pairs@) =~= m.take(k + 1));
                }
            }
            if i >= len {
                return None;
            }
            let c = s.get_char(i);
            if c == ',' {
                i = i + 1;
                proof {
                    assert forall|m: Seq<(Seq<char>, Seq<char>)>| renders_to(m, s@) implies
                        pairs@.len() < m.len() && i == member_start(m, k + 1) by {
                        lemma_window_facts(m, s@, k);
                        lemma_member_start_next(m, k);
                    }
                }
            } else if c == '}' {
                i = i + 1;
                done = true;
                proof {
                    assert forall|m: Seq<(Seq<char>, Seq<char>)>| renders_to(m, s@) implies
                        crate::fields::pair_views(pairs@) == m && i == s@.len() by {
                        lemma_window_facts(m, s@, k);
                        assert(m.take(k + 1) =~= m);
                    }
                }
            } else {
                proof {
                    assert forall|m: Seq<(Seq<char>, Seq<char>)>| !renders_to(m, s@) by {
                        if renders_to(m, s@) {
                            lemma_window_facts(m, s@, k);
                        }
                    }
                }
                return None;
            }
        }
    }
    if i != len {
        return None;
    }
    let fm = FieldMap::from_pairs(&pairs);
    let rendered = render_json_map(&fm);
    proof {
        assert forall|m: Seq<(Seq<char>, Seq<char>)>| renders_to(m, s@) implies fm.view_seq()
            == m && rendered@ == s@ by {
            crate::fields::lemma_from_pairs_sorted(m);
        }
    }
    if crate::text::str_cmp(rendered.as_str(), s) == 1 {
        Some(fm)
    } else {
        None
    }
}

} // verus!
