//! The 'tbl' row format: the fields of a row written one after the other,
//! each followed by a `|`, described by where each field stands in the row.
use vstd::prelude::*;

verus! {

/// Where field `i` of a 'tbl' row starts: after the fields before it and
/// the bar that follows each of them.
pub open spec fn field_start(fields: Seq<Seq<char>>, i: int) -> int
    decreases i,
{
    if i <= 0 {
        0
    } else {
        field_start(fields, i - 1) + fields[i - 1].len() + 1
    }
}

/// Whether `row` holds exactly the given fields, each verbatim at its place
/// and each followed by a `|`, with nothing after the last bar.
pub open spec fn holds_fields(row: Seq<char>, fields: Seq<Seq<char>>) -> bool {
    &&& row.len() == field_start(fields, fields.len() as int)
    &&& forall|i: int|
        0 <= i < fields.len() ==> {
            &&& #[trigger] row.subrange(field_start(fields, i), field_start(fields, i)
                + fields[i].len()) == fields[i]
            &&& row[field_start(fields, i) + fields[i].len()] == '|'
        }
}

/// A field's place does not move when a field is added after it.
proof fn lemma_field_start_push(fields: Seq<Seq<char>>, extra: Seq<char>, i: int)
    requires
        0 <= i <= fields.len(),
    ensures
        field_start(fields.push(extra), i) == field_start(fields, i),
    decreases i,
{
    if i > 0 {
        lemma_field_start_push(fields, extra, i - 1);
        assert(fields.push(extra)[i - 1] == fields[i - 1]);
    }
}

/// A field ends before the next field starts.
proof fn lemma_field_start_grows(fields: Seq<Seq<char>>, i: int, j: int)
    requires
        0 <= i <= j <= fields.len(),
    ensures
        field_start(fields, i) <= field_start(fields, j),
        i < j ==> field_start(fields, i) + fields[i].len() < field_start(fields, j),
    decreases j - i,
{
    if i < j {
        lemma_field_start_grows(fields, i + 1, j);
    }
}

/// A row without fields is empty.
pub proof fn lemma_no_fields()
    ensures
        holds_fields(Seq::empty(), Seq::empty()),
{
}

/// Writing a field and a bar after a row adds that field to the row.
pub proof fn lemma_add_field(row: Seq<char>, fields: Seq<Seq<char>>, extra: Seq<char>)
    requires
        holds_fields(row, fields),
    ensures
        holds_fields(row + extra + "|"@, fields.push(extra)),
{
    reveal_strlit("|");
    let longer = fields.push(extra);
    let out = row + extra + "|"@;
    let n = fields.len() as int;
    lemma_field_start_push(fields, extra, n);
    assert(field_start(longer, n + 1) == field_start(fields, n) + extra.len() + 1);
    assert forall|i: int| 0 <= i < longer.len() implies {
        &&& #[trigger] out.subrange(field_start(longer, i), field_start(longer, i)
            + longer[i].len()) == longer[i]
        &&& out[field_start(longer, i) + longer[i].len()] == '|'
    } by {
        if i < n {
            lemma_field_start_push(fields, extra, i);
            lemma_field_start_grows(fields, i, n);
            lemma_field_start_grows(fields, 0, i);
            let a = field_start(fields, i);
            let b = a + fields[i].len();
            assert(b < row.len());
            assert(row.subrange(a, b) == fields[i]);
            assert(out.subrange(a, b) =~= row.subrange(a, b));
            assert(out[b] == row[b]);
        } else {
            assert(out.subrange(row.len() as int, (row.len() + extra.len()) as int) =~= extra);
        }
    }
}

} // verus!
