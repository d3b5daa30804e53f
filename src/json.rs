//! Text of the pack's coverage file.
use vstd::prelude::*;
use crate::pack::CoverageStats;
use crate::text::push_char;

verus! {

/// The digit character for `d`, below ten or sixteen.
pub open spec fn digit_char(d: nat) -> char {
    if d == 0 { '0' } else if d == 1 { '1' } else if d == 2 { '2' } else if d == 3 { '3' }
    else if d == 4 { '4' } else if d == 5 { '5' } else if d == 6 { '6' } else if d == 7 { '7' }
    else if d == 8 { '8' } else if d == 9 { '9' } else if d == 10 { 'a' } else if d == 11 { 'b' }
    else if d == 12 { 'c' } else if d == 13 { 'd' } else if d == 14 { 'e' } else { 'f' }
}

fn digit(d: u64) -> (r: char)
    requires
        d < 16,
    ensures
        r == digit_char(d as nat),
{
    match d {
        0 => '0', 1 => '1', 2 => '2', 3 => '3', 4 => '4', 5 => '5', 6 => '6', 7 => '7',
        8 => '8', 9 => '9', 10 => 'a', 11 => 'b', 12 => 'c', 13 => 'd', 14 => 'e', _ => 'f',
    }
}

/// The decimal digits of `n`.
pub open spec fn decimal(n: nat) -> Seq<char>
    decreases n,
{
    if n < 10 {
        seq![digit_char(n)]
    } else {
        decimal(n / 10) + seq![digit_char(n % 10)]
    }
}

/// Appends the decimal digits of `n`.
pub fn push_decimal(out: &mut String, n: u64)
    ensures
        final(out)@ == old(out)@ + decimal(n as nat),
    decreases n,
{
    if n >= 10 {
        push_decimal(out, n / 10);
    }
    push_char(out, digit(n % 10));
    assert(final(out)@ =~= old(out)@ + decimal(n as nat));
}

/// How one character is written inside a JSON string.
pub open spec fn json_char(c: char) -> Seq<char> {
    if c == '"' {
        seq!['\\', '"']
    } else if c == '\\' {
        seq!['\\', '\\']
    } else if c == '\n' {
        seq!['\\', 'n']
    } else if c == '\r' {
        seq!['\\', 'r']
    } else if c == '\t' {
        seq!['\\', 't']
    } else if (c as u32) < 0x20 {
        seq!['\\', 'u', '0', '0', digit_char((c as u32 / 16) as nat), digit_char((c as u32 % 16) as nat)]
    } else {
        seq![c]
    }
}

/// The characters of `s`, each as written inside a JSON string.
pub open spec fn json_chars(s: Seq<char>) -> Seq<char>
    decreases s.len(),
{
    if s.len() == 0 {
        Seq::empty()
    } else {
        json_chars(s.drop_last()) + json_char(s.last())
    }
}

/// `s` as a JSON string literal.
pub open spec fn json_string_spec(s: Seq<char>) -> Seq<char> {
    seq!['"'] + json_chars(s) + seq!['"']
}

/// Appends `s` as a JSON string literal.
pub fn push_json_string(out: &mut String, s: &str)
    ensures
        final(out)@ == old(out)@ + json_string_spec(s@),
{
    let ghost start = out@;
    push_char(out, '"');
    for c in it: s.chars()
        invariant
            it.seq() == s@,
            out@ == start + seq!['"'] + json_chars(s@.take(it.index() as int)),
    {
        let ghost pre = s@.take(it.index() as int);
        let ghost before = out@;
        if c == '"' {
            push_char(out, '\\');
            push_char(out, '"');
        } else if c == '\\' {
            push_char(out, '\\');
            push_char(out, '\\');
        } else if c == '\n' {
            push_char(out, '\\');
            push_char(out, 'n');
        } else if c == '\r' {
            push_char(out, '\\');
            push_char(out, 'r');
        } else if c == '\t' {
            push_char(out, '\\');
            push_char(out, 't');
        } else if (c as u32) < 0x20 {
            push_char(out, '\\');
            push_char(out, 'u');
            push_char(out, '0');
            push_char(out, '0');
            push_char(out, digit(c as u32 as u64 / 16));
            push_char(out, digit(c as u32 as u64 % 16));
        } else {
            push_char(out, c);
        }
        proof {
            let next = s@.take(it.index() as int + 1);
            assert(next.drop_last() =~= pre);
            assert(out@ =~= before + json_char(c));
        }
    }
    push_char(out, '"');
    assert(s@.take(s@.len() as int) =~= s@);
    assert(out@ =~= start + json_string_spec(s@));
}

/// The text of the coverage file: the three counters, the notes, and the
/// start and finish times as given, as one JSON object.
pub fn coverage_json(c: CoverageStats, notes: &str, started_at: &str, finished_at: &str) -> (r: String)
    ensures
        r@ == "{\n  \"tables_found\": "@ + decimal(c.tables_found as nat) + ",\n  \"tables_parsed\": "@
            + decimal(c.tables_parsed as nat) + ",\n  \"rows_emitted\": "@ + decimal(c.rows_emitted as nat)
            + ",\n  \"notes\": "@ + json_string_spec(notes@) + ",\n  \"started_at\": "@ + json_string_spec(started_at@)
            + ",\n  \"finished_at\": "@ + json_string_spec(finished_at@) + "\n}\n"@,
{
    let mut out = String::from_str("{\n  \"tables_found\": ");
    push_decimal(&mut out, c.tables_found);
    out.append(",\n  \"tables_parsed\": ");
    push_decimal(&mut out, c.tables_parsed);
    out.append(",\n  \"rows_emitted\": ");
    push_decimal(&mut out, c.rows_emitted);
    out.append(",\n  \"notes\": ");
    push_json_string(&mut out, notes);
    out.append(",\n  \"started_at\": ");
    push_json_string(&mut out, started_at);
    out.append(",\n  \"finished_at\": ");
    push_json_string(&mut out, finished_at);
    out.append("\n}\n");
    out
}

} // verus!
