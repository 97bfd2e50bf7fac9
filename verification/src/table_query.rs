//! The query fingerprint of a table state: a canonical JSON text of its column
//! filters and global filter.

use vstd::prelude::*;
use crate::seqs::{dedup_by, sort_by_key, keys_distinct, lemma_dedup_sort_order_free};
use crate::keyed::{dedupe_keyed, sort_keyed};
use crate::table_state::{
    column_key_fn, DataTableFilterState, DataTableFilterValue, DataTableState, FilterValueView,
    opt_view,
};
use crate::text::{chars_of, push_char, push_str};

verus! {

/// A Unicode control character (general category `Cc`, `char::is_control`).
pub open spec fn is_control(c: char) -> bool {
    c <= '\u{1f}' || ('\u{7f}' <= c && c <= '\u{9f}')
}

/// The lowercase hexadecimal digit of `d` (`0..16`).
pub open spec fn hex_lower(d: int) -> char {
    if d < 10 {
        (('0' as int) + d) as char
    } else {
        (('a' as int) + d - 10) as char
    }
}

/// The JSON escape of one character.
pub open spec fn escape_char(c: char) -> Seq<char> {
    if c == '"' {
        seq!['\\', '"']
    } else if c == '\\' {
        seq!['\\', '\\']
    } else if c == '\n' {
        seq!['\\', 'n']
    } else if c == '\r' {
        seq!['\\', 'r']
    } else if c == '\t' {
        seq!['\\', 't']
    } else if c == '\u{08}' {
        seq!['\\', 'b']
    } else if c == '\u{0C}' {
        seq!['\\', 'f']
    } else if is_control(c) {
        let v = c as int;
        seq![
            '\\',
            'u',
            hex_lower(v / 4096 % 16),
            hex_lower(v / 256 % 16),
            hex_lower(v / 16 % 16),
            hex_lower(v % 16),
        ]
    } else {
        seq![c]
    }
}

/// The JSON escape of every character of `s`, in order.
pub open spec fn escape_chars(s: Seq<char>) -> Seq<char>
    decreases s.len(),
{
    if s.len() == 0 {
        Seq::empty()
    } else {
        escape_chars(s.drop_last()) + escape_char(s.last())
    }
}

/// `s` as a JSON string literal.
pub open spec fn json_text(s: Seq<char>) -> Seq<char> {
    seq!['"'] + escape_chars(s) + seq!['"']
}

fn hex_char(d: u32) -> (c: char)
    requires
        d < 16,
    ensures
        c == hex_lower(d as int),
{
    if d < 10 {
        let b: u8 = ('0' as u8) + (d as u8);
        b as char
    } else {
        let b: u8 = ('a' as u8) + (d as u8) - 10;
        b as char
    }
}

/// Appends the JSON escape of `c` to `out`.
fn push_escaped(out: &mut String, c: char)
    ensures
        final(out)@ == old(out)@ + escape_char(c),
{
    let ghost before = out@;
    if c == '"' {
        push_char(out, '\\');
        push_char(out, '"');
    } else if c == '\\' {
        push_char(out, '\\');
        push_char(out, '\\');
    } else if c == '\n' {
        push_char(out, '\\');
        push_char(out, 'n');
    } else if c == '\r' {
        push_char(out, '\\');
        push_char(out, 'r');
    } else if c == '\t' {
        push_char(out, '\\');
        push_char(out, 't');
    } else if c == '\u{08}' {
        push_char(out, '\\');
        push_char(out, 'b');
    } else if c == '\u{0C}' {
        push_char(out, '\\');
        push_char(out, 'f');
    } else if c <= '\u{1f}' || ('\u{7f}' <= c && c <= '\u{9f}') {
        let v = c as u32;
        push_char(out, '\\');
        push_char(out, 'u');
        push_char(out, hex_char(v / 4096 % 16));
        push_char(out, hex_char(v / 256 % 16));
        push_char(out, hex_char(v / 16 % 16));
        push_char(out, hex_char(v % 16));
    } else {
        push_char(out, c);
    }
    assert(out@ =~= before + escape_char(c));
}

/// Appends the JSON string literal of `value` to `out`.
fn push_json_string(out: &mut String, value: &str)
    ensures
        final(out)@ == old(out)@ + json_text(value@),
{
    let ghost base = out@;
    let chars = chars_of(value);
    push_char(out, '"');
    let mut i: usize = 0;
    assert(chars@.take(0) =~= Seq::<char>::empty());
    while i < chars.len()
        invariant
            i <= chars.len(),
            chars@ == value@,
            out@ == base + seq!['"'] + escape_chars(chars@.take(i as int)),
        decreases chars.len() - i,
    {
        push_escaped(out, chars[i]);
        assert(chars@.take(i + 1).drop_last() =~= chars@.take(i as int));
        i = i + 1;
    }
    assert(chars@.take(i as int) =~= chars@);
    push_char(out, '"');
    assert(out@ =~= base + json_text(value@));
}

/// Renders `value` as a JSON string literal, escaping quotes, backslashes and
/// control characters.
pub fn json_string(value: &str) -> (r: String)
    ensures
        r@ == json_text(value@),
{
    let mut out = String::new();
    push_json_string(&mut out, value);
    assert(out@ =~= json_text(value@));
    out
}


/// The JSON array items of a list of strings, separated by commas.
pub open spec fn json_items(values: Seq<Seq<char>>) -> Seq<char>
    decreases values.len(),
{
    if values.len() == 0 {
        Seq::empty()
    } else if values.len() == 1 {
        json_text(values[0])
    } else {
        json_items(values.drop_last()) + seq![','] + json_text(values.last())
    }
}

/// A JSON string literal of an optional string, or `null`.
pub open spec fn json_opt(v: Option<Seq<char>>) -> Seq<char> {
    match v {
        Some(t) => json_text(t),
        None => "null"@,
    }
}

/// The canonical JSON text of a filter value; the values of a multiple-option
/// filter are sorted.
pub open spec fn filter_value_text(v: FilterValueView) -> Seq<char> {
    match v {
        FilterValueView::Text(t) => "{\"type\":\"text\",\"value\":"@ + json_text(t) + "}"@,
        FilterValueView::Option(t) => "{\"type\":\"option\",\"value\":"@ + json_text(t) + "}"@,
        FilterValueView::Multiple(vs) => "{\"type\":\"multiple\",\"value\":["@ + json_items(
            sort_by_key(vs, column_key_fn::<String>()),
        ) + "]}"@,
        FilterValueView::Boolean(b) => "{\"type\":\"boolean\",\"value\":"@ + (if b {
            "true"@
        } else {
            "false"@
        }) + "}"@,
        FilterValueView::Range(min, max) => "{\"type\":\"range\",\"min\":"@ + json_opt(min)
            + ",\"max\":"@ + json_opt(max) + "}"@,
    }
}

fn push_json_opt(out: &mut String, v: &Option<String>)
    ensures
        final(out)@ == old(out)@ + json_opt(opt_view(*v)),
{
    match v {
        Some(t) => push_json_string(out, t.as_str()),
        None => push_str(out, "null"),
    }
}

/// Renders a filter value as canonical JSON.
pub fn filter_value_json(value: &DataTableFilterValue) -> (r: String)
    ensures
        r@ == filter_value_text(value.deep_view()),
{
    let mut out = String::new();
    match value {
        DataTableFilterValue::Text(v) => {
            push_str(&mut out, "{\"type\":\"text\",\"value\":");
            push_json_string(&mut out, v.as_str());
            push_str(&mut out, "}");
        },
        DataTableFilterValue::Option(v) => {
            push_str(&mut out, "{\"type\":\"option\",\"value\":");
            push_json_string(&mut out, v.as_str());
            push_str(&mut out, "}");
        },
        DataTableFilterValue::Multiple(values) => {
            let sorted = sort_keyed(values);
            push_str(&mut out, "{\"type\":\"multiple\",\"value\":[");
            let ghost base = out@;
            let mut i: usize = 0;
            assert(sorted.deep_view().take(0) =~= Seq::<Seq<char>>::empty());
            while i < sorted.len()
                invariant
                    i <= sorted.len(),
                    out@ == base + json_items(sorted.deep_view().take(i as int)),
                decreases sorted.len() - i,
            {
                assert(sorted.deep_view().take(i + 1).drop_last() =~= sorted.deep_view().take(
                    i as int,
                ));
                assert(sorted.deep_view().take(i + 1).last() == sorted@[i as int]@);
                if i > 0 {
                    push_char(&mut out, ',');
                }
                push_json_string(&mut out, sorted[i].as_str());
                proof {
                    if i == 0 {
                        assert(sorted.deep_view().take(1)[0] == sorted@[0]@);
                    }
                }
                i = i + 1;
            }
            assert(sorted.deep_view().take(i as int) =~= sorted.deep_view());
            push_str(&mut out, "]}");
        },
        DataTableFilterValue::Boolean(b) => {
            push_str(&mut out, "{\"type\":\"boolean\",\"value\":");
            if *b {
                push_str(&mut out, "true");
            } else {
                push_str(&mut out, "false");
            }
            push_str(&mut out, "}");
        },
        DataTableFilterValue::Range { min, max } => {
            push_str(&mut out, "{\"type\":\"range\",\"min\":");
            push_json_opt(&mut out, min);
            push_str(&mut out, ",\"max\":");
            push_json_opt(&mut out, max);
            push_str(&mut out, "}");
        },
    }
    assert(out@ =~= filter_value_text(value.deep_view()));
    out
}

/// The JSON object of one filter entry.
pub open spec fn filter_entry_text(f: (Seq<char>, FilterValueView)) -> Seq<char> {
    "{\"column\":"@ + json_text(f.0) + ",\"value\":"@ + filter_value_text(f.1) + "}"@
}

/// The filter entries joined by commas.
pub open spec fn filter_entries_text(fs: Seq<(Seq<char>, FilterValueView)>) -> Seq<char>
    decreases fs.len(),
{
    if fs.len() == 0 {
        Seq::empty()
    } else if fs.len() == 1 {
        filter_entry_text(fs[0])
    } else {
        filter_entries_text(fs.drop_last()) + seq![','] + filter_entry_text(fs.last())
    }
}

/// The filters that define a query: the first filter of each column, sorted by
/// column id.
pub open spec fn canonical_filters(fs: Seq<(Seq<char>, FilterValueView)>) -> Seq<
    (Seq<char>, FilterValueView),
> {
    sort_by_key(
        dedup_by(fs, column_key_fn::<DataTableFilterState>()),
        column_key_fn::<DataTableFilterState>(),
    )
}

/// The fingerprint of the query defined by the column filters and the global
/// filter of a state.
pub open spec fn fingerprint_text(
    filters: Seq<(Seq<char>, FilterValueView)>,
    global_filter: Option<Seq<char>>,
) -> Seq<char> {
    "{\"filters\":["@ + filter_entries_text(canonical_filters(filters)) + "],\"global_filter\":"@
        + json_opt(global_filter) + "}"@
}

/// Computes the stable fingerprint of the filtered query of a table state.
/// Pagination, sorting, column layout, selection and expansion do not enter it.
pub fn query_fingerprint(state: &DataTableState) -> (r: String)
    ensures
        r@ == fingerprint_text(state.filters.deep_view(), opt_view(state.global_filter)),
{
    let deduped = dedupe_keyed(&state.filters);
    let filters = sort_keyed(&deduped);
    let mut output = String::new();
    push_str(&mut output, "{\"filters\":[");
    let ghost base = output@;
    let ghost fs = filters.deep_view();
    let mut index: usize = 0;
    assert(fs.take(0) =~= Seq::<(Seq<char>, FilterValueView)>::empty());
    while index < filters.len()
        invariant
            index <= filters.len(),
            fs == filters.deep_view(),
            output@ == base + filter_entries_text(fs.take(index as int)),
        decreases filters.len() - index,
    {
        assert(fs.take(index + 1).drop_last() =~= fs.take(index as int));
        assert(fs.take(index + 1).last() == filters@[index as int].deep_view());
        let filter = &filters[index];
        if index > 0 {
            push_char(&mut output, ',');
        }
        let ghost before = output@;
        push_str(&mut output, "{\"column\":");
        push_json_string(&mut output, filter.column.as_str());
        push_str(&mut output, ",\"value\":");
        let value_json = filter_value_json(&filter.value);
        push_str(&mut output, value_json.as_str());
        push_char(&mut output, '}');
        proof {
            assert("}"@ =~= seq!['}']) by {
                reveal_strlit("}");
            }
            if index == 0 {
                assert(fs.take(1)[0] == filters@[0].deep_view());
            }
        }
        index = index + 1;
    }
    assert(fs.take(index as int) =~= fs);
    push_str(&mut output, "],\"global_filter\":");
    push_json_opt(&mut output, &state.global_filter);
    push_str(&mut output, "}");
    assert(output@ =~= fingerprint_text(state.filters.deep_view(), opt_view(state.global_filter)));
    output
}

/// Law: the fingerprint does not depend on the order of the column filters:
/// two lists of filters on pairwise distinct columns that hold the same filters
/// give the same fingerprint.
pub proof fn law_fingerprint_ignores_filter_order(
    filters: Seq<(Seq<char>, FilterValueView)>,
    reordered: Seq<(Seq<char>, FilterValueView)>,
    global_filter: Option<Seq<char>>,
)
    requires
        keys_distinct(filters, column_key_fn::<DataTableFilterState>()),
        keys_distinct(reordered, column_key_fn::<DataTableFilterState>()),
        forall|f: (Seq<char>, FilterValueView)| filters.contains(f) <==> reordered.contains(f),
    ensures
        fingerprint_text(filters, global_filter) == fingerprint_text(reordered, global_filter),
{
    lemma_dedup_sort_order_free(filters, reordered, column_key_fn::<DataTableFilterState>());
}

} // verus!
