//! Field escaping and line assembly for the pack's CSV files.
use vstd::prelude::*;
use crate::text::{chars_of, push_char};

verus! {

/// A field must be quoted when it holds a comma, a quote or a newline.
pub open spec fn needs_quoting(s: Seq<char>) -> bool {
    exists|i: int| 0 <= i < s.len() && (s[i] == ',' || s[i] == '"' || s[i] == '\n')
}

/// How one character of a quoted field is written: a quote is doubled.
pub open spec fn doubled_char(c: char) -> Seq<char> {
    if c == '"' {
        seq!['"', '"']
    } else {
        seq![c]
    }
}

/// The field with every quote doubled.
pub open spec fn double_quotes(s: Seq<char>) -> Seq<char>
    decreases s.len(),
{
    if s.len() == 0 {
        Seq::empty()
    } else {
        doubled_char(s[0]) + double_quotes(s.drop_first())
    }
}

/// The inverse of `double_quotes`: a pair of quotes reads as one quote.
pub open spec fn undouble_quotes(s: Seq<char>) -> Seq<char>
    decreases s.len(),
{
    if s.len() == 0 {
        Seq::empty()
    } else if s.len() >= 2 && s[0] == '"' && s[1] == '"' {
        seq!['"'] + undouble_quotes(s.drop_first().drop_first())
    } else {
        seq![s[0]] + undouble_quotes(s.drop_first())
    }
}

/// A field as written to a CSV file.
pub open spec fn escape_spec(s: Seq<char>) -> Seq<char> {
    if needs_quoting(s) {
        seq!['"'] + double_quotes(s) + seq!['"']
    } else {
        s
    }
}

/// A written field read back: a quoted field loses its quotes and its doubled quotes.
pub open spec fn unescape_spec(t: Seq<char>) -> Seq<char> {
    if t.len() >= 2 && t[0] == '"' && t[t.len() - 1] == '"' {
        undouble_quotes(t.subrange(1, t.len() - 1))
    } else {
        t
    }
}

/// The fields of a row, escaped and joined by commas.
pub open spec fn join_fields(f: Seq<String>) -> Seq<char>
    decreases f.len(),
{
    if f.len() == 0 {
        Seq::empty()
    } else if f.len() == 1 {
        escape_spec(f[0]@)
    } else {
        join_fields(f.drop_last()) + seq![','] + escape_spec(f.last()@)
    }
}

/// One CSV line for a row, with its newline.
pub open spec fn line_spec(f: Seq<String>) -> Seq<char> {
    join_fields(f) + seq!['\n']
}

/// The lines of several rows, one after another.
pub open spec fn lines_spec(rows: Seq<Vec<String>>) -> Seq<char>
    decreases rows.len(),
{
    if rows.len() == 0 {
        Seq::empty()
    } else {
        lines_spec(rows.drop_last()) + line_spec(rows.last()@)
    }
}

pub proof fn lemma_double_quotes_append(a: Seq<char>, b: Seq<char>)
    ensures
        double_quotes(a + b) == double_quotes(a) + double_quotes(b),
    decreases a.len(),
{
    if a.len() == 0 {
        assert(a + b =~= b);
    } else {
        lemma_double_quotes_append(a.drop_first(), b);
        assert((a + b).drop_first() =~= a.drop_first() + b);
    }
}

proof fn lemma_double_quotes_single(c: char)
    ensures
        double_quotes(seq![c]) == doubled_char(c),
{
    let s = seq![c];
    assert(s.drop_first() =~= Seq::<char>::empty());
    assert(double_quotes(s.drop_first()) =~= Seq::<char>::empty());
    assert(doubled_char(c) + Seq::<char>::empty() =~= doubled_char(c));
}

pub proof fn lemma_undouble_double(s: Seq<char>)
    ensures
        undouble_quotes(double_quotes(s)) == s,
    decreases s.len(),
{
    if s.len() > 0 {
        let rest = double_quotes(s.drop_first());
        lemma_undouble_double(s.drop_first());
        let d = double_quotes(s);
        if s[0] == '"' {
            assert(d =~= seq!['"', '"'] + rest);
            assert(d.drop_first().drop_first() =~= rest);
        } else {
            assert(d =~= seq![s[0]] + rest);
            assert(d.drop_first() =~= rest);
        }
        assert(s =~= seq![s[0]] + s.drop_first());
    }
}

/// Reading back an escaped field gives the field itself, whatever it holds
/// (commas, quotes and newlines included).
pub proof fn lemma_escape_round_trip(s: Seq<char>)
    ensures
        unescape_spec(escape_spec(s)) == s,
{
    if needs_quoting(s) {
        let t = escape_spec(s);
        assert(t.subrange(1, t.len() - 1) =~= double_quotes(s));
        lemma_undouble_double(s);
    } else {
        if s.len() >= 2 && s[0] == '"' {
            assert(needs_quoting(s));
        }
    }
}

/// Escapes one field: wrapped in quotes, with inner quotes doubled, when it
/// holds a comma, a quote or a newline; unchanged otherwise.
pub fn csv_escape(s: &str) -> (r: String)
    ensures
        r@ == escape_spec(s@),
{
    let mut quote = false;
    for c in it: s.chars()
        invariant
            it.seq() == s@,
            quote <==> exists|j: int|
                0 <= j < it.index() && (s@[j] == ',' || s@[j] == '"' || s@[j] == '\n'),
    {
        if c == ',' || c == '"' || c == '\n' {
            quote = true;
        }
    }
    let mut out = String::new();
    if quote {
        push_char(&mut out, '"');
    }
    for c in it: s.chars()
        invariant
            it.seq() == s@,
            quote ==> out@ == seq!['"'] + double_quotes(s@.take(it.index() as int)),
            !quote ==> out@ == s@.take(it.index() as int),
    {
        let ghost before = s@.take(it.index() as int);
        if quote && c == '"' {
            push_char(&mut out, '"');
        }
        push_char(&mut out, c);
        proof {
            assert(s@.take(it.index() as int + 1) =~= before + seq![c]);
            lemma_double_quotes_append(before, seq![c]);
            lemma_double_quotes_single(c);
        }
    }
    if quote {
        push_char(&mut out, '"');
    }
    proof {
        assert(s@.take(s@.len() as int) =~= s@);
    }
    out
}

/// One CSV line for a row: the escaped fields joined by commas, then a newline.
pub fn csv_line(row: &Vec<String>) -> (r: String)
    ensures
        r@ == line_spec(row@),
{
    let mut out = String::new();
    let mut i: usize = 0;
    while i < row.len()
        invariant
            i <= row.len(),
            out@ == join_fields(row@.take(i as int)),
        decreases row.len() - i,
    {
        let ghost prev = row@.take(i as int);
        if i > 0 {
            push_char(&mut out, ',');
        }
        let field = csv_escape(row[i].as_str());
        out.append(field.as_str());
        proof {
            let next = row@.take(i as int + 1);
            assert(next.drop_last() =~= prev);
            if i == 0 {
                assert(out@ =~= escape_spec(next[0]@));
            } else {
                assert(out@ =~= join_fields(prev) + seq![','] + escape_spec(next.last()@));
            }
        }
        i = i + 1;
    }
    push_char(&mut out, '\n');
    proof {
        assert(row@.take(row.len() as int) =~= row@);
    }
    out
}

/// The text of a CSV file: the header as given, then one line per row, in order.
pub fn csv_text(header: &str, rows: &Vec<Vec<String>>) -> (r: String)
    ensures
        r@ == header@ + lines_spec(rows@),
{
    let mut out = String::from_str(header);
    let mut i: usize = 0;
    while i < rows.len()
        invariant
            i <= rows.len(),
            out@ == header@ + lines_spec(rows@.take(i as int)),
        decreases rows.len() - i,
    {
        let line = csv_line(&rows[i]);
        out.append(line.as_str());
        proof {
            let next = rows@.take(i as int + 1);
            assert(next.drop_last() =~= rows@.take(i as int));
            assert(out@ =~= header@ + lines_spec(next));
        }
        i = i + 1;
    }
    proof {
        assert(rows@.take(rows.len() as int) =~= rows@);
    }
    out
}

/// Reads back one written field: a field wrapped in quotes loses them, and
/// each pair of quotes inside reads as one quote; any other field is unchanged.
pub fn csv_unescape(t: &str) -> (r: String)
    ensures
        r@ == unescape_spec(t@),
{
    let cs = chars_of(t);
    let n = cs.len();
    let mut out = String::new();
    if n >= 2 && cs[0] == '"' && cs[n - 1] == '"' {
        let ghost inner = cs@.subrange(1, n - 1);
        let mut i: usize = 1;
        while i < n - 1
            invariant
                n == cs.len(),
                n >= 2,
                1 <= i <= n - 1,
                inner == cs@.subrange(1, n - 1),
                out@ + undouble_quotes(cs@.subrange(i as int, n - 1)) == undouble_quotes(inner),
            decreases n - i,
        {
            let ghost rest = cs@.subrange(i as int, n - 1);
            if i + 1 < n - 1 && cs[i] == '"' && cs[i + 1] == '"' {
                push_char(&mut out, '"');
                assert(rest.drop_first().drop_first() =~= cs@.subrange(i + 2, n - 1));
                i = i + 2;
            } else {
                push_char(&mut out, cs[i]);
                assert(rest.drop_first() =~= cs@.subrange(i + 1, n - 1));
                i = i + 1;
            }
        }
        assert(cs@.subrange(i as int, n - 1) =~= Seq::<char>::empty());
        assert(out@ =~= undouble_quotes(inner));
    } else {
        let mut i: usize = 0;
        while i < n
            invariant
                n == cs.len(),
                i <= n,
                out@ == cs@.take(i as int),
            decreases n - i,
        {
            push_char(&mut out, cs[i]);
            assert(cs@.take(i as int + 1) =~= out@);
            i = i + 1;
        }
        assert(cs@.take(n as int) =~= cs@);
    }
    out
}

} // verus!
