//! The structural CSV repair step: parsing a downloaded file's text into
//! records, forcing the canonical header, dropping records of the wrong
//! arity, and rendering the result back — with the proof that repairing a
//! repaired file changes nothing.

use vstd::prelude::*;
use vstd::string::StrSliceExecFns;
use vstd::string::StringExecFns;
use crate::text::spec_ends_with;

verus! {

/// Whether `c` terminates a record line.
pub open spec fn is_line_sep(c: char) -> bool {
    c == '\n' || c == '\r'
}

/// The index of the first record terminator in `s`, or `s.len()` if none.
pub open spec fn idx_of_line_sep(s: Seq<char>) -> nat
    decreases s.len(),
{
    if s.len() == 0 {
        0
    } else if is_line_sep(s[0]) {
        0
    } else {
        1 + idx_of_line_sep(s.skip(1))
    }
}

/// The index of the first field separator in `s`, or `s.len()` if none.
pub open spec fn idx_of_comma(s: Seq<char>) -> nat
    decreases s.len(),
{
    if s.len() == 0 {
        0
    } else if s[0] == ',' {
        0
    } else {
        1 + idx_of_comma(s.skip(1))
    }
}

/// Proof of the characterization of [`idx_of_line_sep`]: it is the first
/// terminator position, or the length when there is none.
pub proof fn lemma_idx_of_line_sep(s: Seq<char>)
    ensures
        idx_of_line_sep(s) <= s.len(),
        forall|j: int| 0 <= j < idx_of_line_sep(s) ==> !is_line_sep(#[trigger] s[j]),
        idx_of_line_sep(s) < s.len() ==> is_line_sep(s[idx_of_line_sep(s) as int]),
    decreases s.len(),
{
    if s.len() > 0 && !is_line_sep(s[0]) {
        lemma_idx_of_line_sep(s.skip(1));
        assert forall|j: int| 0 <= j < idx_of_line_sep(s) implies !is_line_sep(#[trigger] s[j]) by {
            if j > 0 {
                assert(s[j] == s.skip(1)[j - 1]);
            }
        }
    }
}

/// Proof of the characterization of [`idx_of_comma`].
pub proof fn lemma_idx_of_comma(s: Seq<char>)
    ensures
        idx_of_comma(s) <= s.len(),
        forall|j: int| 0 <= j < idx_of_comma(s) ==> #[trigger] s[j] != ',',
        idx_of_comma(s) < s.len() ==> s[idx_of_comma(s) as int] == ',',
    decreases s.len(),
{
    if s.len() > 0 && s[0] != ',' {
        lemma_idx_of_comma(s.skip(1));
        assert forall|j: int| 0 <= j < idx_of_comma(s) implies #[trigger] s[j] != ',' by {
            if j > 0 {
                assert(s[j] == s.skip(1)[j - 1]);
            }
        }
    }
}

/// Proof that a first index is determined by what it characterizes.
proof fn lemma_idx_of_line_sep_is(s: Seq<char>, m: int)
    requires
        0 <= m <= s.len(),
        forall|j: int| 0 <= j < m ==> !is_line_sep(#[trigger] s[j]),
        m < s.len() ==> is_line_sep(s[m]),
    ensures
        idx_of_line_sep(s) == m,
    decreases s.len(),
{
    if s.len() > 0 && !is_line_sep(s[0]) {
        assert(m > 0);
        assert forall|j: int| 0 <= j < m - 1 implies !is_line_sep(#[trigger] s.skip(1)[j]) by {
            assert(s.skip(1)[j] == s[j + 1]);
        }
        assert(m - 1 < s.skip(1).len() ==> is_line_sep(s.skip(1)[m - 1]));
        lemma_idx_of_line_sep_is(s.skip(1), m - 1);
    }
}

/// Proof that a first comma index is determined by what it characterizes.
proof fn lemma_idx_of_comma_is(s: Seq<char>, m: int)
    requires
        0 <= m <= s.len(),
        forall|j: int| 0 <= j < m ==> #[trigger] s[j] != ',',
        m < s.len() ==> s[m] == ',',
    ensures
        idx_of_comma(s) == m,
    decreases s.len(),
{
    if s.len() > 0 && s[0] != ',' {
        assert(m > 0);
        assert forall|j: int| 0 <= j < m - 1 implies #[trigger] s.skip(1)[j] != ',' by {
            assert(s.skip(1)[j] == s[j + 1]);
        }
        assert(m - 1 < s.skip(1).len() ==> s.skip(1)[m - 1] == ',');
        lemma_idx_of_comma_is(s.skip(1), m - 1);
    }
}

/// The pieces of `s` between record terminators. Every terminator ends a
/// piece, so text ending in a terminator contributes a final empty piece.
pub open spec fn split_lines(s: Seq<char>) -> Seq<Seq<char>>
    decreases s.len(),
{
    let i = idx_of_line_sep(s);
    if i >= s.len() {
        seq![s]
    } else {
        seq![s.take(i as int)] + split_lines(s.skip(i + 1 as int))
    }
}

/// The fields of one record line, split on commas.
pub open spec fn split_fields(s: Seq<char>) -> Seq<Seq<char>>
    decreases s.len(),
{
    let i = idx_of_comma(s);
    if i >= s.len() {
        seq![s]
    } else {
        seq![s.take(i as int)] + split_fields(s.skip(i + 1 as int))
    }
}

/// One record line: its fields joined by commas.
pub open spec fn join_fields(fields: Seq<Seq<char>>) -> Seq<char>
    decreases fields.len(),
{
    if fields.len() == 0 {
        Seq::<char>::empty()
    } else if fields.len() == 1 {
        fields[0]
    } else {
        fields[0] + seq![','] + join_fields(fields.skip(1))
    }
}

/// The records of a sequence of lines: every empty line is dropped, every
/// other one split into fields.
pub open spec fn records_of_lines(lines: Seq<Seq<char>>) -> Seq<Seq<Seq<char>>>
    decreases lines.len(),
{
    if lines.len() == 0 {
        Seq::<Seq<Seq<char>>>::empty()
    } else if lines[0].len() == 0 {
        records_of_lines(lines.skip(1))
    } else {
        seq![split_fields(lines[0])] + records_of_lines(lines.skip(1))
    }
}

/// The records of a file's text: its non-empty lines, each split into
/// fields.
pub open spec fn spec_records(text: Seq<char>) -> Seq<Seq<Seq<char>>> {
    records_of_lines(split_lines(text))
}

/// A file's text from its records: each record's joined line, each ended by
/// a newline.
pub open spec fn render_records(records: Seq<Seq<Seq<char>>>) -> Seq<char>
    decreases records.len(),
{
    if records.len() == 0 {
        Seq::<char>::empty()
    } else {
        join_fields(records[0]) + seq!['\n'] + render_records(records.skip(1))
    }
}

/// Whether every character of every field of `r` can sit inside one CSV
/// field: no field separator and no record terminator.
pub open spec fn record_fields_plain(r: Seq<Seq<char>>) -> bool {
    forall|k: int, j: int|
        0 <= k < r.len() && 0 <= j < r[k].len() ==> #[trigger] r[k][j] != ',' && !is_line_sep(
            r[k][j],
        )
}

/// Proof that the pieces of a line split hold no record terminator, and that
/// a terminator-free text splits into pieces that cover it.
proof fn lemma_split_lines_plain(s: Seq<char>)
    ensures
        forall|k: int, j: int|
            0 <= k < split_lines(s).len() && 0 <= j < split_lines(s)[k].len()
                ==> !is_line_sep(#[trigger] split_lines(s)[k][j]),
    decreases s.len(),
{
    lemma_idx_of_line_sep(s);
    let i = idx_of_line_sep(s);
    if i < s.len() {
        lemma_split_lines_plain(s.skip(i + 1 as int));
        assert forall|k: int, j: int|
            0 <= k < split_lines(s).len() && 0 <= j < split_lines(s)[k].len()
                implies !is_line_sep(#[trigger] split_lines(s)[k][j]) by {
            if k == 0 {
                assert(split_lines(s)[0] == s.take(i as int));
                assert(s.take(i as int)[j] == s[j]);
            } else {
                assert(split_lines(s)[k] == split_lines(s.skip(i + 1 as int))[k - 1]);
            }
        }
    } else {
        assert forall|k: int, j: int|
            0 <= k < split_lines(s).len() && 0 <= j < split_lines(s)[k].len()
                implies !is_line_sep(#[trigger] split_lines(s)[k][j]) by {
            assert(split_lines(s)[k] == s);
        }
    }
}

/// Proof that the fields of a line split hold no separator, and keep holding
/// no terminator when the line held none.
proof fn lemma_split_fields_plain(s: Seq<char>)
    requires
        forall|j: int| 0 <= j < s.len() ==> !is_line_sep(#[trigger] s[j]),
    ensures
        record_fields_plain(split_fields(s)),
    decreases s.len(),
{
    lemma_idx_of_comma(s);
    let i = idx_of_comma(s);
    if i < s.len() {
        assert forall|j: int| 0 <= j < s.skip(i + 1 as int).len()
            implies !is_line_sep(#[trigger] s.skip(i + 1 as int)[j]) by {
            assert(s.skip(i + 1 as int)[j] == s[j + i + 1]);
        }
        lemma_split_fields_plain(s.skip(i + 1 as int));
        assert forall|k: int, j: int|
            0 <= k < split_fields(s).len() && 0 <= j < split_fields(s)[k].len()
                implies #[trigger] split_fields(s)[k][j] != ',' && !is_line_sep(
                split_fields(s)[k][j],
            ) by {
            if k == 0 {
                assert(split_fields(s)[0] == s.take(i as int));
                assert(s.take(i as int)[j] == s[j]);
            } else {
                assert(split_fields(s)[k] == split_fields(s.skip(i + 1 as int))[k - 1]);
            }
        }
    } else {
        assert forall|k: int, j: int|
            0 <= k < split_fields(s).len() && 0 <= j < split_fields(s)[k].len()
                implies #[trigger] split_fields(s)[k][j] != ',' && !is_line_sep(
                split_fields(s)[k][j],
            ) by {
            assert(split_fields(s)[k] == s);
        }
    }
}

/// Proof that every record a text parses to has only plain fields.
pub proof fn lemma_records_plain(text: Seq<char>)
    ensures
        forall|k: int|
            0 <= k < spec_records(text).len() ==> record_fields_plain(
                #[trigger] spec_records(text)[k],
            ),
{
    lemma_split_lines_plain(text);
    lemma_records_of_lines_plain(split_lines(text));
}

/// Proof that records built from terminator-free lines have plain fields.
proof fn lemma_records_of_lines_plain(lines: Seq<Seq<char>>)
    requires
        forall|k: int, j: int|
            0 <= k < lines.len() && 0 <= j < lines[k].len() ==> !is_line_sep(
                #[trigger] lines[k][j],
            ),
    ensures
        forall|k: int|
            0 <= k < records_of_lines(lines).len() ==> record_fields_plain(
                #[trigger] records_of_lines(lines)[k],
            ),
    decreases lines.len(),
{
    if lines.len() > 0 {
        assert forall|k: int, j: int|
            0 <= k < lines.skip(1).len() && 0 <= j < lines.skip(1)[k].len()
                implies !is_line_sep(#[trigger] lines.skip(1)[k][j]) by {
            assert(lines.skip(1)[k] == lines[k + 1]);
        }
        lemma_records_of_lines_plain(lines.skip(1));
        if lines[0].len() > 0 {
            assert forall|j: int| 0 <= j < lines[0].len()
                implies !is_line_sep(#[trigger] lines[0][j]) by {}
            lemma_split_fields_plain(lines[0]);
            assert forall|k: int| 0 <= k < records_of_lines(lines).len()
                implies record_fields_plain(#[trigger] records_of_lines(lines)[k]) by {
                if k > 0 {
                    assert(records_of_lines(lines)[k] == records_of_lines(lines.skip(1))[k - 1]);
                }
            }
        }
    }
}

/// Proof that a separator search walks over a separator-free prefix.
proof fn lemma_idx_of_comma_concat(a: Seq<char>, b: Seq<char>)
    requires
        forall|j: int| 0 <= j < a.len() ==> #[trigger] a[j] != ',',
    ensures
        idx_of_comma(a + b) == a.len() + idx_of_comma(b),
{
    lemma_idx_of_comma(b);
    assert forall|j: int| 0 <= j < a.len() + idx_of_comma(b) implies #[trigger] (a + b)[j]
        != ',' by {
        if j >= a.len() {
            assert((a + b)[j] == b[j - a.len()]);
        }
    }
    if a.len() + idx_of_comma(b) < (a + b).len() {
        assert((a + b)[a.len() + idx_of_comma(b) as int] == b[idx_of_comma(b) as int]);
    }
    lemma_idx_of_comma_is(a + b, a.len() + idx_of_comma(b) as int);
}

/// Proof that a terminator search walks over a terminator-free prefix.
proof fn lemma_idx_of_line_sep_concat(a: Seq<char>, b: Seq<char>)
    requires
        forall|j: int| 0 <= j < a.len() ==> !is_line_sep(#[trigger] a[j]),
    ensures
        idx_of_line_sep(a + b) == a.len() + idx_of_line_sep(b),
{
    lemma_idx_of_line_sep(b);
    assert forall|j: int| 0 <= j < a.len() + idx_of_line_sep(b) implies !is_line_sep(
        #[trigger] (a + b)[j],
    ) by {
        if j >= a.len() {
            assert((a + b)[j] == b[j - a.len()]);
        }
    }
    if a.len() + idx_of_line_sep(b) < (a + b).len() {
        assert((a + b)[a.len() + idx_of_line_sep(b) as int] == b[idx_of_line_sep(b) as int]);
    }
    lemma_idx_of_line_sep_is(a + b, a.len() + idx_of_line_sep(b) as int);
}

/// Proof that splitting a joined record gives the record back: the
/// round-trip at line level.
proof fn lemma_split_join(fields: Seq<Seq<char>>)
    requires
        fields.len() >= 1,
        forall|k: int, j: int|
            0 <= k < fields.len() && 0 <= j < fields[k].len() ==> #[trigger] fields[k][j] != ',',
    ensures
        split_fields(join_fields(fields)) == fields,
    decreases fields.len(),
{
    if fields.len() == 1 {
        lemma_idx_of_comma_is(fields[0], fields[0].len() as int);
        assert(split_fields(join_fields(fields)) =~= fields);
    } else {
        let rest = join_fields(fields.skip(1));
        let s = join_fields(fields);
        assert(s == fields[0] + seq![','] + rest);
        assert(idx_of_comma(seq![','] + rest) == 0);
        lemma_idx_of_comma_concat(fields[0], seq![','] + rest);
        assert(fields[0] + seq![','] + rest =~= fields[0] + (seq![','] + rest));
        assert(idx_of_comma(s) == fields[0].len());
        assert(s.take(fields[0].len() as int) =~= fields[0]);
        assert(s.skip(fields[0].len() + 1 as int) =~= rest);
        assert forall|k: int, j: int|
            0 <= k < fields.skip(1).len() && 0 <= j < fields.skip(1)[k].len()
                implies #[trigger] fields.skip(1)[k][j] != ',' by {
            assert(fields.skip(1)[k] == fields[k + 1]);
        }
        lemma_split_join(fields.skip(1));
        assert(split_fields(s) =~= seq![fields[0]] + fields.skip(1));
        assert(seq![fields[0]] + fields.skip(1) =~= fields);
    }
}

/// Proof that the joined line of a record with plain fields holds no record
/// terminator, and is non-empty when the record has at least two fields.
proof fn lemma_join_plain(fields: Seq<Seq<char>>)
    requires
        record_fields_plain(fields),
    ensures
        forall|j: int|
            0 <= j < join_fields(fields).len() ==> !is_line_sep(#[trigger] join_fields(fields)[j]),
        fields.len() >= 2 ==> join_fields(fields).len() >= 1,
    decreases fields.len(),
{
    if fields.len() > 1 {
        assert forall|k: int, j: int|
            0 <= k < fields.skip(1).len() && 0 <= j < fields.skip(1)[k].len()
                implies #[trigger] fields.skip(1)[k][j] != ',' && !is_line_sep(
                fields.skip(1)[k][j],
            ) by {
            assert(fields.skip(1)[k] == fields[k + 1]);
        }
        lemma_join_plain(fields.skip(1));
        let s = join_fields(fields);
        assert forall|j: int| 0 <= j < s.len() implies !is_line_sep(#[trigger] s[j]) by {
            let head = fields[0] + seq![','];
            assert(s =~= head + join_fields(fields.skip(1)));
            if j < head.len() {
                assert(s[j] == head[j]);
            } else {
                assert(s[j] == join_fields(fields.skip(1))[j - head.len()]);
            }
        }
    }
}

/// Proof that parsing a rendered record list gives the list back, when every
/// record has at least two plain fields: the round-trip at file level.
pub proof fn lemma_parse_render(records: Seq<Seq<Seq<char>>>)
    requires
        forall|k: int| 0 <= k < records.len() ==> #[trigger] records[k].len() >= 2,
        forall|k: int| 0 <= k < records.len() ==> record_fields_plain(#[trigger] records[k]),
    ensures
        spec_records(render_records(records)) == records,
    decreases records.len(),
{
    if records.len() == 0 {
        assert(idx_of_line_sep(Seq::<char>::empty()) == 0);
        let lines = split_lines(Seq::<char>::empty());
        assert(lines =~~= seq![Seq::<char>::empty()]);
        assert(lines.skip(1) =~~= Seq::<Seq<char>>::empty());
        assert(records_of_lines(lines.skip(1)) =~~= Seq::<Seq<Seq<char>>>::empty());
        assert(spec_records(render_records(records)) =~~= records);
    } else {
        let line = join_fields(records[0]);
        let rest = render_records(records.skip(1));
        let s = render_records(records);
        lemma_join_plain(records[0]);
        assert(s == line + seq!['\n'] + rest);
        assert(idx_of_line_sep(seq!['\n'] + rest) == 0);
        lemma_idx_of_line_sep_concat(line, seq!['\n'] + rest);
        assert(line + seq!['\n'] + rest =~= line + (seq!['\n'] + rest));
        assert(idx_of_line_sep(s) == line.len());
        assert(line.len() < s.len());
        assert(s.take(line.len() as int) =~= line);
        assert(s.skip(line.len() + 1 as int) =~= rest);
        assert(split_lines(s) == seq![line] + split_lines(rest));
        assert forall|k: int| 0 <= k < records.skip(1).len()
            implies #[trigger] records.skip(1)[k].len() >= 2 && record_fields_plain(
            records.skip(1)[k],
        ) by {
            assert(records.skip(1)[k] == records[k + 1]);
        }
        lemma_parse_render(records.skip(1));
        lemma_split_join(records[0]);
        let lines = split_lines(s);
        assert(lines[0] == line);
        assert(lines.skip(1) =~~= split_lines(rest));
        assert(line.len() >= 1);
        assert(records_of_lines(lines) =~~= seq![split_fields(line)] + records_of_lines(
            lines.skip(1),
        ));
        assert(records_of_lines(lines) =~~= records);
    }
}

/// The canonical header of a raw bar file: twelve fixed column names.
pub open spec fn spec_header() -> Seq<Seq<char>> {
    seq![
        "open_time"@,
        "open"@,
        "high"@,
        "low"@,
        "close"@,
        "volume"@,
        "close_time"@,
        "quote_volume"@,
        "count"@,
        "taker_buy_volume"@,
        "taker_buy_quote_volume"@,
        "ignore"@,
    ]
}

/// Proof that the canonical header has twelve plain fields.
pub proof fn lemma_header_plain()
    ensures
        spec_header().len() == 12,
        record_fields_plain(spec_header()),
{
    reveal_strlit("open_time");
    reveal_strlit("open");
    reveal_strlit("high");
    reveal_strlit("low");
    reveal_strlit("close");
    reveal_strlit("volume");
    reveal_strlit("close_time");
    reveal_strlit("quote_volume");
    reveal_strlit("count");
    reveal_strlit("taker_buy_volume");
    reveal_strlit("taker_buy_quote_volume");
    reveal_strlit("ignore");
}

/// The repaired form of a parsed file: the canonical header prepended unless
/// it is already the first record, then every record whose field count is
/// not the canonical twelve removed.
/// The predicate of the arity filter: a record with exactly the canonical
/// twelve fields.
pub open spec fn arity_pred() -> spec_fn(Seq<Seq<char>>) -> bool {
    |r: Seq<Seq<char>>| r.len() == 12
}

pub open spec fn spec_repair(records: Seq<Seq<Seq<char>>>) -> Seq<Seq<Seq<char>>>
    recommends
        records.len() > 0,
{
    let with_header = if records[0] == spec_header() {
        records
    } else {
        seq![spec_header()] + records
    };
    with_header.filter(arity_pred())
}

/// A repaired file's text.
pub open spec fn spec_repaired_text(text: Seq<char>) -> Seq<char>
    recommends
        spec_records(text).len() > 0,
{
    render_records(spec_repair(spec_records(text)))
}

/// Proof that every element a filter keeps comes from the sequence.
proof fn lemma_filter_elem_from<A>(s: Seq<A>, pred: spec_fn(A) -> bool, k: int)
    requires
        0 <= k < s.filter(pred).len(),
    ensures
        exists|j: int| 0 <= j < s.len() && s[j] == s.filter(pred)[k],
    decreases s.len(),
{
    reveal(Seq::filter);
    if s.len() > 0 {
        let f = s.filter(pred);
        let fd = s.drop_last().filter(pred);
        if pred(s.last()) && k == f.len() - 1 {
            assert(s[s.len() - 1] == f[k]);
        } else {
            lemma_filter_elem_from(s.drop_last(), pred, k);
            let j = choose|j: int| 0 <= j < s.drop_last().len() && s.drop_last()[j] == fd[k];
            assert(s[j] == f[k]);
        }
    }
}

/// Proof that a filter keeps a sequence it is wholly true of.
proof fn lemma_filter_all<A>(s: Seq<A>, pred: spec_fn(A) -> bool)
    requires
        forall|i: int| 0 <= i < s.len() ==> pred(#[trigger] s[i]),
    ensures
        s.filter(pred) == s,
    decreases s.len(),
{
    reveal(Seq::filter);
    if s.len() > 0 {
        lemma_filter_all(s.drop_last(), pred);
        assert(pred(s[s.len() - 1]));
        assert(s.filter(pred) == s.drop_last().filter(pred).push(s.last()));
        assert(s.drop_last().push(s.last()) =~= s);
    }
}

/// Proof of what repair leaves behind: a non-empty record list headed by the
/// canonical header, holding only twelve-field records, all of them either
/// the header or records of the input — so with plain fields whenever the
/// input's are plain.
pub proof fn lemma_repair_canonical(records: Seq<Seq<Seq<char>>>)
    requires
        records.len() > 0,
        forall|k: int| 0 <= k < records.len() ==> record_fields_plain(#[trigger] records[k]),
    ensures
        spec_repair(records).len() >= 1,
        spec_repair(records)[0] == spec_header(),
        forall|k: int| 0 <= k < spec_repair(records).len() ==> #[trigger] spec_repair(
            records,
        )[k].len() == 12,
        forall|k: int|
            0 <= k < spec_repair(records).len() ==> record_fields_plain(
                #[trigger] spec_repair(records)[k],
            ),
{
    reveal(Seq::filter);
    lemma_header_plain();
    let pred = arity_pred();
    let with_header: Seq<Seq<Seq<char>>> = if records[0] == spec_header() {
        records
    } else {
        seq![spec_header()] + records
    };
    let head: Seq<Seq<Seq<char>>> = seq![spec_header()];
    assert(pred(spec_header()));
    assert(head.filter(pred) =~~= head) by {
        assert(head.drop_last() =~~= Seq::<Seq<Seq<char>>>::empty());
        assert(head.drop_last().filter(pred) =~~= Seq::<Seq<Seq<char>>>::empty());
        assert(head.filter(pred) == head.drop_last().filter(pred).push(spec_header()));
    }
    assert(with_header[0] == spec_header());
    let tail = with_header.skip(1);
    assert(with_header =~~= head + tail);
    Seq::filter_distributes_over_add(head, tail, pred);
    assert(spec_repair(records) == with_header.filter(pred));
    assert(with_header.filter(pred) == head.filter(pred) + tail.filter(pred));
    assert(spec_repair(records)[0] == spec_header());
    assert forall|k: int| 0 <= k < with_header.len() implies record_fields_plain(
        #[trigger] with_header[k],
    ) by {
        if records[0] != spec_header() && k > 0 {
            assert(with_header[k] == records[k - 1]);
        }
    }
    assert forall|k: int| 0 <= k < spec_repair(records).len() implies record_fields_plain(
        #[trigger] spec_repair(records)[k],
    ) && spec_repair(records)[k].len() == 12 by {
        with_header.lemma_filter_pred(pred, k);
        lemma_filter_elem_from(with_header, pred, k);
        let j = choose|j: int| 0 <= j < with_header.len() && with_header[j] == with_header.filter(
            pred,
        )[k];
        assert(record_fields_plain(with_header[j]));
    }
}

/// Law: the repair is idempotent. Repairing the rendered output of a repair
/// parses to the same records and renders to the same text, byte for byte.
pub proof fn lemma_repair_idempotent(text: Seq<char>)
    requires
        spec_records(text).len() > 0,
    ensures
        spec_records(spec_repaired_text(text)).len() > 0,
        spec_repaired_text(spec_repaired_text(text)) == spec_repaired_text(text),
{
    let recs = spec_records(text);
    lemma_records_plain(text);
    lemma_repair_canonical(recs);
    let rep = spec_repair(recs);
    lemma_parse_render(rep);
    assert(spec_records(spec_repaired_text(text)) == rep);
    assert(rep[0] == spec_header());
    lemma_filter_all(rep, arity_pred());
    assert(spec_repair(rep) == rep);
}

/// The sanitizer's refusals: a path without the tabular-data extension, and
/// a file with no records at all.
#[derive(Clone, Copy, PartialEq, Eq, Structural, Debug)]
pub enum SanitizeError {
    NotCsv,
    EmptyInput,
}

/// Whether a path names a file with the tabular-data extension: it ends in
/// `.csv` and the dot does not start the file name.
pub open spec fn spec_has_csv_ext(name: Seq<char>) -> bool {
    &&& spec_ends_with(name, ".csv"@)
    &&& name.len() > 4
    &&& name[name.len() - 5] != '/'
}

/// Whether `s@[j]` terminates a record line.
fn is_sep_at(s: &str, j: usize) -> (r: bool)
    requires
        j < s@.len(),
    ensures
        r == is_line_sep(s@[j as int]),
{
    let c = s.get_char(j);
    let v = c as u32;
    v == 10 || v == 13
}

/// The lines of a file's text, every record terminator consumed.
pub fn split_lines_exec(text: &str) -> (r: Vec<String>)
    ensures
        r.deep_view() == split_lines(text@),
{
    let n = text.unicode_len();
    let mut lines: Vec<String> = Vec::new();
    let mut pos: usize = 0;
    let mut done = false;
    assert(text@.skip(0) =~= text@);
    assert(lines.deep_view() + split_lines(text@) =~~= split_lines(text@));
    while !done
        invariant
            n == text@.len(),
            pos <= n,
            !done ==> lines.deep_view() + split_lines(text@.skip(pos as int)) =~~= split_lines(
                text@,
            ),
            done ==> lines.deep_view() =~~= split_lines(text@),
        decreases n - pos + (if done {
            0int
        } else {
            1int
        }),
    {
        let ghost rest = text@.skip(pos as int);
        let mut j = pos;
        while j < n && !is_sep_at(text, j)
            invariant
                pos <= j <= n,
                n == text@.len(),
                forall|k: int| pos <= k < j ==> !is_line_sep(#[trigger] text@[k]),
            decreases n - j,
        {
            j = j + 1;
        }
        proof {
            assert forall|k: int| 0 <= k < j - pos implies !is_line_sep(#[trigger] rest[k]) by {
                assert(rest[k] == text@[pos + k]);
            }
            if j < n {
                assert(rest[j - pos] == text@[j as int]);
            }
            lemma_idx_of_line_sep_is(rest, j - pos);
        }
        let ghost p = pos as int;
        let piece = text.substring_char(pos, j).to_owned();
        assert(piece@ =~= rest.take(j - p));
        let ghost prev = lines.deep_view();
        lines.push(piece);
        assert(lines.deep_view() =~~= prev.push(piece@));
        if j < n {
            pos = j + 1;
            assert(text@.skip(pos as int) =~= rest.skip(j - p + 1));
            assert(split_lines(rest) =~~= seq![rest.take(j - p)] + split_lines(
                rest.skip(j - p + 1),
            ));
            assert(lines.deep_view() + split_lines(text@.skip(pos as int)) =~~= split_lines(
                text@,
            ));
        } else {
            pos = j;
            done = true;
            assert(split_lines(rest) =~~= seq![rest]);
            assert(rest.take(j - p) =~= rest);
            assert(lines.deep_view() =~~= split_lines(text@));
        }
    }
    lines
}

/// Whether `s@[j]` separates two fields.
fn is_comma_at(s: &str, j: usize) -> (r: bool)
    requires
        j < s@.len(),
    ensures
        r == (s@[j as int] == ','),
{
    let c = s.get_char(j);
    c as u32 == 44
}

/// The fields of one record line.
pub fn split_fields_exec(line: &str) -> (r: Vec<String>)
    ensures
        r.deep_view() == split_fields(line@),
{
    let n = line.unicode_len();
    let mut fields: Vec<String> = Vec::new();
    let mut pos: usize = 0;
    let mut done = false;
    assert(line@.skip(0) =~= line@);
    assert(fields.deep_view() + split_fields(line@) =~~= split_fields(line@));
    while !done
        invariant
            n == line@.len(),
            pos <= n,
            !done ==> fields.deep_view() + split_fields(line@.skip(pos as int)) =~~= split_fields(
                line@,
            ),
            done ==> fields.deep_view() =~~= split_fields(line@),
        decreases n - pos + (if done {
            0int
        } else {
            1int
        }),
    {
        let ghost rest = line@.skip(pos as int);
        let mut j = pos;
        while j < n && !is_comma_at(line, j)
            invariant
                pos <= j <= n,
                n == line@.len(),
                forall|k: int| pos <= k < j ==> #[trigger] line@[k] != ',',
            decreases n - j,
        {
            j = j + 1;
        }
        proof {
            assert forall|k: int| 0 <= k < j - pos implies #[trigger] rest[k] != ',' by {
                assert(rest[k] == line@[pos + k]);
            }
            if j < n {
                assert(rest[j - pos] == line@[j as int]);
            }
            lemma_idx_of_comma_is(rest, j - pos);
        }
        let ghost p = pos as int;
        let piece = line.substring_char(pos, j).to_owned();
        assert(piece@ =~= rest.take(j - p));
        let ghost prev = fields.deep_view();
        fields.push(piece);
        assert(fields.deep_view() =~~= prev.push(piece@));
        if j < n {
            pos = j + 1;
            assert(line@.skip(pos as int) =~= rest.skip(j - p + 1));
            assert(split_fields(rest) =~~= seq![rest.take(j - p)] + split_fields(
                rest.skip(j - p + 1),
            ));
            assert(fields.deep_view() + split_fields(line@.skip(pos as int)) =~~= split_fields(
                line@,
            ));
        } else {
            pos = j;
            done = true;
            assert(split_fields(rest) =~~= seq![rest]);
            assert(rest.take(j - p) =~= rest);
            assert(fields.deep_view() =~~= split_fields(line@));
        }
    }
    fields
}

/// The records of a file's text: non-empty lines split into fields.
pub fn parse_records(text: &str) -> (r: Vec<Vec<String>>)
    ensures
        r.deep_view() == spec_records(text@),
{
    let lines = split_lines_exec(text);
    let ghost all = lines.deep_view();
    let mut records: Vec<Vec<String>> = Vec::new();
    let mut i: usize = 0;
    assert(all.skip(0) =~~= all);
    assert(records.deep_view() + records_of_lines(all) =~~= records_of_lines(all));
    while i < lines.len()
        invariant
            i <= lines.len(),
            all == lines.deep_view(),
            records.deep_view() + records_of_lines(all.skip(i as int)) =~~= records_of_lines(all),
        decreases lines.len() - i,
    {
        let ghost rest = all.skip(i as int);
        assert(rest[0] == all[i as int]);
        assert(rest.skip(1) =~~= all.skip(i + 1));
        let line = &lines[i];
        assert(line@ == all[i as int]);
        if line.as_str().unicode_len() > 0 {
            let fields = split_fields_exec(line.as_str());
            let ghost prev = records.deep_view();
            records.push(fields);
            assert(records.deep_view() =~~= prev.push(fields.deep_view()));
            assert(records_of_lines(rest) =~~= seq![split_fields(rest[0])] + records_of_lines(
                rest.skip(1),
            ));
        } else {
            assert(records_of_lines(rest) =~~= records_of_lines(rest.skip(1)));
        }
        i = i + 1;
    }
    assert(all.skip(lines.len() as int) =~~= Seq::<Seq<char>>::empty());
    assert(records_of_lines(Seq::<Seq<char>>::empty()) =~~= Seq::<Seq<Seq<char>>>::empty());
    records
}

/// The canonical header as an owned record.
pub fn header_record() -> (r: Vec<String>)
    ensures
        r.deep_view() == spec_header(),
{
    let mut r: Vec<String> = Vec::new();
    r.push(String::from_str("open_time"));
    r.push(String::from_str("open"));
    r.push(String::from_str("high"));
    r.push(String::from_str("low"));
    r.push(String::from_str("close"));
    r.push(String::from_str("volume"));
    r.push(String::from_str("close_time"));
    r.push(String::from_str("quote_volume"));
    r.push(String::from_str("count"));
    r.push(String::from_str("taker_buy_volume"));
    r.push(String::from_str("taker_buy_quote_volume"));
    r.push(String::from_str("ignore"));
    assert(r.deep_view() =~~= spec_header());
    r
}

/// Whether `rec` is exactly the canonical header.
pub fn record_eq_header(rec: &Vec<String>) -> (r: bool)
    ensures
        r == (rec.deep_view() == spec_header()),
{
    proof {
        lemma_header_plain();
    }
    if rec.len() != 12 {
        return false;
    }
    if !crate::text::str_eq(rec[0].as_str(), "open_time") {
        proof {
            assert(rec.deep_view()[0] != spec_header()[0]);
        }
        return false;
    }
    if !crate::text::str_eq(rec[1].as_str(), "open") {
        proof {
            assert(rec.deep_view()[1] != spec_header()[1]);
        }
        return false;
    }
    if !crate::text::str_eq(rec[2].as_str(), "high") {
        proof {
            assert(rec.deep_view()[2] != spec_header()[2]);
        }
        return false;
    }
    if !crate::text::str_eq(rec[3].as_str(), "low") {
        proof {
            assert(rec.deep_view()[3] != spec_header()[3]);
        }
        return false;
    }
    if !crate::text::str_eq(rec[4].as_str(), "close") {
        proof {
            assert(rec.deep_view()[4] != spec_header()[4]);
        }
        return false;
    }
    if !crate::text::str_eq(rec[5].as_str(), "volume") {
        proof {
            assert(rec.deep_view()[5] != spec_header()[5]);
        }
        return false;
    }
    if !crate::text::str_eq(rec[6].as_str(), "close_time") {
        proof {
            assert(rec.deep_view()[6] != spec_header()[6]);
        }
        return false;
    }
    if !crate::text::str_eq(rec[7].as_str(), "quote_volume") {
        proof {
            assert(rec.deep_view()[7] != spec_header()[7]);
        }
        return false;
    }
    if !crate::text::str_eq(rec[8].as_str(), "count") {
        proof {
            assert(rec.deep_view()[8] != spec_header()[8]);
        }
        return false;
    }
    if !crate::text::str_eq(rec[9].as_str(), "taker_buy_volume") {
        proof {
            assert(rec.deep_view()[9] != spec_header()[9]);
        }
        return false;
    }
    if !crate::text::str_eq(rec[10].as_str(), "taker_buy_quote_volume") {
        proof {
            assert(rec.deep_view()[10] != spec_header()[10]);
        }
        return false;
    }
    if !crate::text::str_eq(rec[11].as_str(), "ignore") {
        proof {
            assert(rec.deep_view()[11] != spec_header()[11]);
        }
        return false;
    }
    assert(rec.deep_view() =~~= spec_header());
    true
}

/// Repairs a parsed record list: refuses an empty one, otherwise forces the
/// canonical header in front and keeps exactly the twelve-field records.
pub fn repair_records(records: &Vec<Vec<String>>) -> (r: Result<Vec<Vec<String>>, SanitizeError>)
    ensures
        r is Err <==> records.deep_view().len() == 0,
        r matches Err(e) ==> e == SanitizeError::EmptyInput,
        r matches Ok(v) ==> v.deep_view() == spec_repair(records.deep_view()),
{
    broadcast use vstd::std_specs::vec::vec_clone_deep_view_proof;

    proof {
        lemma_header_plain();
        reveal(Seq::filter);
    }
    if records.len() == 0 {
        return Err(SanitizeError::EmptyInput);
    }
    let ghost recs = records.deep_view();
    let ghost pred = arity_pred();
    let first_is_header = record_eq_header(&records[0]);
    assert(records.deep_view()[0] == records[0].deep_view());
    let mut out: Vec<Vec<String>> = Vec::new();
    let ghost head_part: Seq<Seq<Seq<char>>> = if first_is_header {
        Seq::empty()
    } else {
        seq![spec_header()]
    };
    if !first_is_header {
        let h = header_record();
        out.push(h);
        proof {
            assert(out.deep_view() =~~= head_part);
        }
    }
    assert(out.deep_view() =~~= head_part + recs.take(0).filter(pred)) by {
        assert(recs.take(0) =~~= Seq::<Seq<Seq<char>>>::empty());
        assert(recs.take(0).filter(pred) =~~= Seq::<Seq<Seq<char>>>::empty());
    }
    let mut i: usize = 0;
    while i < records.len()
        invariant
            i <= records.len(),
            recs == records.deep_view(),
            pred == arity_pred(),
            out.deep_view() =~~= head_part + recs.take(i as int).filter(pred),
        decreases records.len() - i,
    {
        let ghost prefix = recs.take(i as int);
        assert(recs.take(i + 1) =~~= prefix.push(recs[i as int]));
        assert(recs.take(i + 1).drop_last() =~~= prefix);
        let rec = records[i].clone();
        assert(rec.deep_view() == recs[i as int]);
        proof {
            reveal(Seq::filter);
        }
        if rec.len() == 12 {
            let ghost prev = out.deep_view();
            out.push(rec);
            assert(out.deep_view() =~~= prev.push(recs[i as int]));
            assert(recs.take(i + 1).filter(pred) =~~= prefix.filter(pred).push(recs[i as int]));
        } else {
            assert(recs.take(i + 1).filter(pred) =~~= prefix.filter(pred));
        }
        i = i + 1;
    }
    proof {
        assert(recs.take(records.len() as int) =~~= recs);
        let with_header: Seq<Seq<Seq<char>>> = if recs[0] == spec_header() {
            recs
        } else {
            seq![spec_header()] + recs
        };
        if first_is_header {
            assert(out.deep_view() =~~= recs.filter(pred));
        } else {
            Seq::filter_distributes_over_add(seq![spec_header()], recs, pred);
            assert(seq![spec_header()].filter(pred) =~~= seq![spec_header()]) by {
                assert(seq![spec_header()].drop_last() =~~= Seq::<Seq<Seq<char>>>::empty());
            }
            assert(out.deep_view() =~~= with_header.filter(pred));
        }
    }
    Ok(out)
}

/// The suffix of a joined record after its first field: each remaining field
/// preceded by a separator.
pub open spec fn join_tail(fields: Seq<Seq<char>>) -> Seq<char>
    decreases fields.len(),
{
    if fields.len() == 0 {
        Seq::<char>::empty()
    } else {
        seq![','] + fields[0] + join_tail(fields.skip(1))
    }
}

/// Proof that a join is its first field followed by the separated rest.
proof fn lemma_join_tail(fields: Seq<Seq<char>>)
    requires
        fields.len() >= 1,
    ensures
        join_fields(fields) == fields[0] + join_tail(fields.skip(1)),
    decreases fields.len(),
{
    if fields.len() == 1 {
        assert(fields.skip(1) =~~= Seq::<Seq<char>>::empty());
        assert(fields[0] + join_tail(fields.skip(1)) =~= fields[0]);
    } else {
        lemma_join_tail(fields.skip(1));
        let s1 = fields.skip(1);
        assert(join_fields(fields) == fields[0] + seq![','] + join_fields(s1));
        assert(join_tail(s1) =~= seq![','] + s1[0] + join_tail(s1.skip(1)));
        assert(fields[0] + seq![','] + (s1[0] + join_tail(s1.skip(1))) =~= fields[0] + (seq![',']
            + s1[0] + join_tail(s1.skip(1))));
        assert(fields[0] + seq![','] + join_fields(s1) =~= fields[0] + seq![','] + (s1[0]
            + join_tail(s1.skip(1))));
    }
}

/// One record as a line of text: its fields joined by the separator.
pub fn join_fields_exec(rec: &Vec<String>) -> (r: String)
    ensures
        r@ == join_fields(rec.deep_view()),
{
    let ghost f = rec.deep_view();
    if rec.len() == 0 {
        let r = String::new();
        assert(r@ =~= join_fields(f));
        return r;
    }
    let mut out = rec[0].clone();
    assert(out@ == f[0]);
    proof {
        lemma_join_tail(f);
    }
    let mut k: usize = 1;
    while k < rec.len()
        invariant
            1 <= k <= rec.len(),
            f == rec.deep_view(),
            out@ + join_tail(f.skip(k as int)) == join_fields(f),
        decreases rec.len() - k,
    {
        let ghost rest = f.skip(k as int);
        let ghost prev = out@;
        crate::text::push_char(&mut out, ',');
        out.append(rec[k].as_str());
        proof {
            assert(rest[0] == f[k as int]);
            assert(rest.skip(1) =~~= f.skip(k + 1));
            assert(out@ =~= prev + (seq![','] + rest[0]));
            assert(join_tail(rest) == seq![','] + rest[0] + join_tail(rest.skip(1)));
            assert(out@ + join_tail(f.skip(k + 1)) =~= prev + join_tail(rest));
        }
        k = k + 1;
    }
    assert(f.skip(rec.len() as int) =~~= Seq::<Seq<char>>::empty());
    assert(out@ + Seq::<char>::empty() =~= out@);
    out
}

/// A record list as file text: each record's line ended by a newline.
pub fn write_records(records: &Vec<Vec<String>>) -> (r: String)
    ensures
        r@ == render_records(records.deep_view()),
{
    let ghost recs = records.deep_view();
    let mut out = String::new();
    let mut i: usize = 0;
    assert(recs.skip(0) =~~= recs);
    assert(out@ + render_records(recs) =~= render_records(recs));
    while i < records.len()
        invariant
            i <= records.len(),
            recs == records.deep_view(),
            out@ + render_records(recs.skip(i as int)) == render_records(recs),
        decreases records.len() - i,
    {
        let ghost rest = recs.skip(i as int);
        let ghost prev = out@;
        let line = join_fields_exec(&records[i]);
        assert(records[i as int].deep_view() == rest[0]);
        out.append(line.as_str());
        crate::text::push_char(&mut out, '\n');
        proof {
            assert(rest.skip(1) =~~= recs.skip(i + 1));
            assert(out@ =~= prev + (join_fields(rest[0]) + seq!['\n']));
            assert(render_records(rest) == join_fields(rest[0]) + seq!['\n'] + render_records(
                rest.skip(1),
            ));
            assert(out@ + render_records(recs.skip(i + 1)) =~= prev + render_records(rest));
        }
        i = i + 1;
    }
    assert(recs.skip(records.len() as int) =~~= Seq::<Seq<Seq<char>>>::empty());
    assert(out@ + Seq::<char>::empty() =~= out@);
    out
}

/// The structural CSV repair step.
pub struct CsvSanitizer {}

impl CsvSanitizer {
    /// A sanitizer.
    pub fn new() -> CsvSanitizer {
        CsvSanitizer {  }
    }

    /// Whether `name` names a tabular-data file.
    fn check_csv(&self, name: &str) -> (r: bool)
        ensures
            r == spec_has_csv_ext(name@),
    {
        proof {
            reveal_strlit(".csv");
        }
        let n = name.unicode_len();
        if !crate::text::ends_with(name, ".csv") {
            return false;
        }
        if n <= 4 {
            return false;
        }
        let c = name.get_char(n - 5);
        c as u32 != 47
    }

    /// Repairs one downloaded file: refuses a name without the tabular-data
    /// extension and a file without records; otherwise forces the canonical
    /// header in front, drops every record whose field count is not the
    /// canonical twelve, and returns the rewritten text.
    pub fn run(&self, file_name: &str, text: &str) -> (r: Result<String, SanitizeError>)
        ensures
            (r matches Err(e) && e == SanitizeError::NotCsv) <==> !spec_has_csv_ext(file_name@),
            (r matches Err(e) && e == SanitizeError::EmptyInput) <==> (spec_has_csv_ext(file_name@)
                && spec_records(text@).len() == 0),
            r matches Ok(t) ==> spec_records(text@).len() > 0 && t@ == spec_repaired_text(text@),
            r is Ok <==> (spec_has_csv_ext(file_name@) && spec_records(text@).len() > 0),
    {
        if !self.check_csv(file_name) {
            return Err(SanitizeError::NotCsv);
        }
        let records = parse_records(text);
        match repair_records(&records) {
            Err(e) => Err(e),
            Ok(repaired) => Ok(write_records(&repaired)),
        }
    }
}

/// The typed-load step of one repaired partition file: it turns the file's
/// records into bars, normalizing the timestamp column from second- or
/// millisecond-epoch values to milliseconds and dropping rows with missing
/// values.
pub struct DataFrameSanitizer {}

impl DataFrameSanitizer {
    /// A typed-load sanitizer.
    pub fn new() -> DataFrameSanitizer {
        DataFrameSanitizer {  }
    }

    /// The typed rows of one repaired file's records: the header skipped,
    /// every data record parsed exactly, rows with missing values dropped,
    /// timestamps normalized to milliseconds.
    pub fn run(&self, records: &Vec<Vec<String>>) -> (r: Vec<crate::store::Bar>)
        ensures
            records.deep_view().len() >= 1 ==> r@ == crate::store::spec_clean_bars(
                records.deep_view().skip(1),
            ),
            records.deep_view().len() == 0 ==> r@.len() == 0,
    {
        crate::store::partition_bars(records)
    }
}

} // verus!
