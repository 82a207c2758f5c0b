//! CSV encoding of the collected pairs.
//!
//! The result set is emitted as CSV with a fixed two-column header,
//! every field quoted so that commas, quotes and line breaks inside a
//! question or answer stay inside their field, a comma as the field
//! delimiter, and CRLF as the record terminator.

use vstd::prelude::*;

verus! {

/// `s` with every double quote doubled: what stands between a quoted
/// field's enclosing quotes.
pub open spec fn spec_escaped(s: Seq<char>) -> Seq<char>
    decreases s.len(),
{
    if s.len() == 0 {
        seq![]
    } else {
        spec_escaped(s.drop_last()) + if s.last() == '"' {
            seq!['"', '"']
        } else {
            seq![s.last()]
        }
    }
}

/// A field: always quoted.
pub open spec fn spec_field(s: Seq<char>) -> Seq<char> {
    seq!['"'] + spec_escaped(s) + seq!['"']
}

/// One record: two quoted fields joined by a comma and ended by CRLF.
pub open spec fn spec_record(q: Seq<char>, a: Seq<char>) -> Seq<char> {
    spec_field(q) + seq![','] + spec_field(a) + seq!['\r', '\n']
}

/// The records after the header, one per pair, in order.
pub open spec fn spec_rows(rows: Seq<(Seq<char>, Seq<char>)>) -> Seq<char>
    decreases rows.len(),
{
    if rows.len() == 0 {
        seq![]
    } else {
        spec_rows(rows.drop_last()) + spec_record(rows.last().0, rows.last().1)
    }
}

/// The whole document: the header record, then one record per pair.
pub open spec fn spec_csv(rows: Seq<(Seq<char>, Seq<char>)>) -> Seq<char> {
    spec_record("Question"@, "Answer"@) + spec_rows(rows)
}

/// Relies on String::push: appends exactly the given character.
#[verifier::external_body]
fn push_char(s: &mut String, c: char)
    ensures
        final (s)@ == old(s)@.push(c),
{
    s.push(c);
}

fn push_field(out: &mut String, s: &str)
    ensures
        final (out)@ == old(out)@ + spec_field(s@),
{
    let ghost base = out@;
    push_char(out, '"');
    let n = s.unicode_len();
    let mut i: usize = 0;
    proof {
        assert(s@.take(0) =~= Seq::<char>::empty());
        assert(out@ =~= base + seq!['"'] + spec_escaped(s@.take(0)));
    }
    while i < n
        invariant
            i <= n,
            n == s@.len(),
            out@ == base + seq!['"'] + spec_escaped(s@.take(i as int)),
        decreases n - i,
    {
        let c = s.get_char(i);
        proof {
            assert(s@.take(i + 1).drop_last() =~= s@.take(i as int));
            assert(s@.take(i + 1).last() == s@[i as int]);
        }
        if c == '"' {
            push_char(out, '"');
            push_char(out, '"');
            proof {
                assert(out@ =~= base + seq!['"'] + spec_escaped(s@.take(i + 1)));
            }
        } else {
            push_char(out, c);
            proof {
                assert(out@ =~= base + seq!['"'] + spec_escaped(s@.take(i + 1)));
            }
        }
        i = i + 1;
    }
    push_char(out, '"');
    proof {
        assert(s@.take(n as int) =~= s@);
        assert(out@ =~= base + spec_field(s@));
    }
}

fn push_record(out: &mut String, q: &str, a: &str)
    ensures
        final (out)@ == old(out)@ + spec_record(q@, a@),
{
    let ghost base = out@;
    push_field(out, q);
    push_char(out, ',');
    push_field(out, a);
    push_char(out, '\r');
    push_char(out, '\n');
    proof {
        assert(out@ =~= base + spec_record(q@, a@));
    }
}

/// Encodes the pairs as a CSV document: a `"Question","Answer"` header
/// and one record per pair, every field quoted with quotes doubled,
/// records ended by CRLF.
pub fn encode_csv(rows: &Vec<(String, String)>) -> (out: String)
    ensures
        out@ == spec_csv(rows.deep_view()),
{
    let mut out = String::new();
    push_record(&mut out, "Question", "Answer");
    let mut i: usize = 0;
    proof {
        assert(rows.deep_view().take(0) =~= Seq::<(Seq<char>, Seq<char>)>::empty());
        assert(out@ =~= spec_record("Question"@, "Answer"@) + spec_rows(rows.deep_view().take(0)));
    }
    while i < rows.len()
        invariant
            i <= rows.len(),
            rows.deep_view().len() == rows.len(),
            out@ == spec_record("Question"@, "Answer"@) + spec_rows(
                rows.deep_view().take(i as int),
            ),
        decreases rows.len() - i,
    {
        let row = &rows[i];
        push_record(&mut out, row.0.as_str(), row.1.as_str());
        proof {
            let rs = rows.deep_view();
            assert(rs.take(i + 1).drop_last() =~= rs.take(i as int));
            assert(rs.take(i + 1).last() == rs[i as int]);
            assert(rs[i as int] == (row.0@, row.1@));
            assert(out@ =~= spec_record("Question"@, "Answer"@) + spec_rows(rs.take(i + 1)));
        }
        i = i + 1;
    }
    proof {
        assert(rows.deep_view().take(rows.len() as int) =~= rows.deep_view());
    }
    out
}

} // verus!
