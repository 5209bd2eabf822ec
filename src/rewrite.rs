//! The rewrite pass: re-emits a destination document, substituting the
//! value-field attributes from the extracted records.

use vstd::prelude::*;

use crate::extract::{extracted, records_view, Record, RecordView};
use crate::path::{
    names_field, note_frames, path_text, step_frames, tracked_frames, FrameView, PathTracker,
};
use crate::text::{contains_text, is_substring};
use crate::token::{
    opt_view, tokenize, tokens_view, xml_tokens, ElementEnd, EndView, ExchangeError, Token,
    TokenView,
};

verus! {

/// The value of the first record whose path occurs in `path`, or `original`
/// when no record's path does.
pub open spec fn lookup(records: Seq<RecordView>, path: Seq<char>, original: Seq<char>) -> Seq<
    char,
>
    decreases records.len(),
{
    if records.len() == 0 {
        original
    } else if is_substring(records[0].path, path) {
        records[0].value
    } else {
        lookup(records.drop_first(), path, original)
    }
}

/// The text written for the value of the attribute `key="value"`, read on
/// the stack `frames` (the attribute already noted): a value-field attribute
/// takes what [`lookup`] finds for the current path, any other keeps its text.
pub open spec fn attribute_value(
    frames: Seq<FrameView>,
    key: Seq<char>,
    value: Seq<char>,
    value_field: Option<Seq<char>>,
    records: Seq<RecordView>,
) -> Seq<char> {
    if value_field == Some(key) {
        lookup(records, path_text(frames), value)
    } else {
        value
    }
}

/// The line terminator of a document: `\r\n` where one occurs in it, else
/// `\n` where one occurs, else nothing (a document on one line).
pub open spec fn line_terminator(text: Seq<char>) -> Seq<char> {
    if is_substring("\r\n"@, text) {
        "\r\n"@
    } else if is_substring("\n"@, text) {
        "\n"@
    } else {
        Seq::empty()
    }
}

/// The line terminator of `text`, as [`line_terminator`] says.
pub fn line_terminator_of(text: &str) -> (r: &'static str)
    ensures
        r@ == line_terminator(text@),
{
    if contains_text(text, "\r\n") {
        "\r\n"
    } else if contains_text(text, "\n") {
        "\n"
    } else {
        proof {
            reveal_strlit("");
        }
        assert(""@ =~= Seq::<char>::empty());
        ""
    }
}

/// The text of an XML declaration followed by the line terminator `line_end`.
pub open spec fn declaration_text(
    version: Seq<char>,
    encoding: Option<Seq<char>>,
    line_end: Seq<char>,
) -> Seq<char> {
    "<?xml version=\""@ + version + "\""@ + match encoding {
        Some(e) => " encoding=\""@ + e + "\""@,
        None => Seq::empty(),
    } + "?>"@ + line_end
}

/// The text written for token `t`, read with `frames` open before it.
pub open spec fn rewrite_piece(
    frames: Seq<FrameView>,
    t: TokenView,
    sort_field: Option<Seq<char>>,
    value_field: Option<Seq<char>>,
    records: Seq<RecordView>,
    line_end: Seq<char>,
) -> Seq<char> {
    match t {
        TokenView::Declaration(version, encoding) => declaration_text(version, encoding, line_end),
        TokenView::Comment(text) => "<!-- "@ + text + " -->"@,
        TokenView::Text(text) => text,
        TokenView::ElementStart(name) => "<"@ + name,
        TokenView::Attribute(key, value) => " "@ + key + "=\""@ + attribute_value(
            note_frames(frames, key, value, sort_field, value_field),
            key,
            value,
            value_field,
            records,
        ) + "\""@,
        TokenView::ElementEnd(EndView::Open) => ">"@,
        TokenView::ElementEnd(EndView::Close(name)) => "</"@ + name + ">"@,
        TokenView::ElementEnd(EndView::Empty) => " />"@,
        TokenView::Other(text) => text,
    }
}

/// The document that the rewrite pass writes for `tokens`, ending its
/// declaration with `line_end`.
pub open spec fn rewritten(
    tokens: Seq<TokenView>,
    sort_field: Option<Seq<char>>,
    value_field: Option<Seq<char>>,
    records: Seq<RecordView>,
    line_end: Seq<char>,
) -> Seq<char>
    decreases tokens.len(),
{
    if tokens.len() == 0 {
        Seq::empty()
    } else {
        rewritten(tokens.drop_last(), sort_field, value_field, records, line_end) + rewrite_piece(
            tracked_frames(tokens.drop_last(), sort_field, value_field),
            tokens.last(),
            sort_field,
            value_field,
            records,
            line_end,
        )
    }
}

/// The path against which the attribute at position `i` of `tokens` is
/// looked up: the path once that attribute is noted.
pub open spec fn attribute_path(
    tokens: Seq<TokenView>,
    i: int,
    sort_field: Option<Seq<char>>,
    value_field: Option<Seq<char>>,
) -> Seq<char> {
    path_text(
        step_frames(tracked_frames(tokens.take(i), sort_field, value_field), tokens[i], sort_field, value_field),
    )
}

/// At every value-field attribute of `tokens`, the two record lists give the
/// same value.
pub open spec fn same_values(
    tokens: Seq<TokenView>,
    sort_field: Option<Seq<char>>,
    value_field: Option<Seq<char>>,
    first: Seq<RecordView>,
    second: Seq<RecordView>,
) -> bool {
    forall|i: int|
        0 <= i < tokens.len() ==> match #[trigger] tokens[i] {
            TokenView::Attribute(key, value) => value_field == Some(key) ==> lookup(
                first,
                attribute_path(tokens, i, sort_field, value_field),
                value,
            ) == lookup(second, attribute_path(tokens, i, sort_field, value_field), value),
            _ => true,
        }
}

/// Records reach the output only through value-field attributes: two record
/// lists that give the same value at every value-field attribute give the
/// same document, and all other markup is written the same whatever the
/// records.
pub proof fn lemma_records_only_touch_values(
    tokens: Seq<TokenView>,
    sort_field: Option<Seq<char>>,
    value_field: Option<Seq<char>>,
    first: Seq<RecordView>,
    second: Seq<RecordView>,
    line_end: Seq<char>,
)
    requires
        same_values(tokens, sort_field, value_field, first, second),
    ensures
        rewritten(tokens, sort_field, value_field, first, line_end) == rewritten(
            tokens,
            sort_field,
            value_field,
            second,
            line_end,
        ),
    decreases tokens.len(),
{
    if tokens.len() > 0 {
        let prev = tokens.drop_last();
        let n = tokens.len() - 1;
        assert forall|i: int| 0 <= i < prev.len() implies match #[trigger] prev[i] {
            TokenView::Attribute(key, value) => value_field == Some(key) ==> lookup(
                first,
                attribute_path(prev, i, sort_field, value_field),
                value,
            ) == lookup(second, attribute_path(prev, i, sort_field, value_field), value),
            _ => true,
        } by {
            assert(prev.take(i) =~= tokens.take(i));
            assert(prev[i] == tokens[i]);
        }
        lemma_records_only_touch_values(prev, sort_field, value_field, first, second, line_end);
        assert(tokens.take(n) =~= prev);
        assert(tokens[n] == tokens.last());
    }
}

/// Where every value-field attribute of a document finds its own value
/// among the records extracted from that same document (with no ignore
/// rules), rewriting the document with those records writes exactly what
/// rewriting it with no records writes. This lemma assumes that condition;
/// it does not show when the condition holds.
pub proof fn lemma_own_values_rewrite_unchanged(
    tokens: Seq<TokenView>,
    sort_field: Option<Seq<char>>,
    value_field: Option<Seq<char>>,
    line_end: Seq<char>,
)
    requires
        forall|i: int|
            0 <= i < tokens.len() ==> match #[trigger] tokens[i] {
                TokenView::Attribute(key, value) => value_field == Some(key) ==> lookup(
                    extracted(tokens, sort_field, value_field, Seq::empty()),
                    attribute_path(tokens, i, sort_field, value_field),
                    value,
                ) == value,
                _ => true,
            },
    ensures
        rewritten(
            tokens,
            sort_field,
            value_field,
            extracted(tokens, sort_field, value_field, Seq::empty()),
            line_end,
        ) == rewritten(tokens, sort_field, value_field, Seq::empty(), line_end),
{
    let recs = extracted(tokens, sort_field, value_field, Seq::empty());
    assert forall|i: int| 0 <= i < tokens.len() implies match #[trigger] tokens[i] {
        TokenView::Attribute(key, value) => value_field == Some(key) ==> lookup(
            recs,
            attribute_path(tokens, i, sort_field, value_field),
            value,
        ) == lookup(Seq::empty(), attribute_path(tokens, i, sort_field, value_field), value),
        _ => true,
    } by {}
    lemma_records_only_touch_values(tokens, sort_field, value_field, recs, Seq::empty(), line_end);
}

/// The value found is that of the first record whose path occurs in the
/// path, not that of the longest or most specific one.
pub proof fn lemma_first_match_wins(
    records: Seq<RecordView>,
    path: Seq<char>,
    original: Seq<char>,
    i: int,
)
    requires
        0 <= i < records.len(),
        is_substring(records[i].path, path),
        forall|j: int| 0 <= j < i ==> !is_substring(#[trigger] records[j].path, path),
    ensures
        lookup(records, path, original) == records[i].value,
    decreases i,
{
    if i > 0 {
        assert(!is_substring(records[0].path, path));
        let rest = records.drop_first();
        assert forall|j: int| 0 <= j < i - 1 implies !is_substring(#[trigger] rest[j].path, path) by {
            assert(rest[j] == records[j + 1]);
        }
        lemma_first_match_wins(rest, path, original, i - 1);
    }
}

/// Where no record's path occurs in the path, the original value is kept.
pub proof fn lemma_missing_match_keeps_original(
    records: Seq<RecordView>,
    path: Seq<char>,
    original: Seq<char>,
)
    requires
        forall|j: int| 0 <= j < records.len() ==> !is_substring(#[trigger] records[j].path, path),
    ensures
        lookup(records, path, original) == original,
    decreases records.len(),
{
    if records.len() > 0 {
        let rest = records.drop_first();
        assert(!is_substring(records[0].path, path));
        assert forall|j: int| 0 <= j < rest.len() implies !is_substring(#[trigger] rest[j].path, path) by {
            assert(rest[j] == records[j + 1]);
        }
        lemma_missing_match_keeps_original(rest, path, original);
    }
}

/// The value of the first record whose path occurs in `path`; `original`
/// when there is none.
pub fn find_replacement(records: &Vec<Record>, path: &str, original: &str) -> (r: String)
    ensures
        r@ == lookup(records_view(records@), path@, original@),
{
    let ghost rv = records_view(records@);
    let mut i: usize = 0;
    assert(rv.subrange(0, rv.len() as int) =~= rv);
    while i < records.len()
        invariant
            i <= records@.len(),
            rv == records_view(records@),
            lookup(rv, path@, original@) == lookup(
                rv.subrange(i as int, rv.len() as int),
                path@,
                original@,
            ),
        decreases records@.len() - i,
    {
        let rec = &records[i];
        assert(rv.subrange(i as int, rv.len() as int)[0] == rec@);
        assert(rv.subrange(i as int, rv.len() as int).drop_first() =~= rv.subrange(
            i + 1,
            rv.len() as int,
        ));
        if contains_text(path, rec.path.as_str()) {
            return rec.value.clone();
        }
        i = i + 1;
    }
    original.to_owned()
}

/// Writes the text of `tokens` in order: each token in its literal form
/// (a declaration followed by `line_end`), except that a value-field attribute takes the value of the first record
/// whose path occurs in the current path, and keeps its own value when no
/// record's path does.
pub fn rewrite_tokens(
    tokens: &Vec<Token>,
    sort_field: &Option<String>,
    value_field: &Option<String>,
    records: &Vec<Record>,
    line_end: &str,
) -> (r: String)
    ensures
        r@ == rewritten(
            tokens_view(tokens@),
            opt_view(*sort_field),
            opt_view(*value_field),
            records_view(records@),
            line_end@,
        ),
{
    let ghost tv = tokens_view(tokens@);
    let ghost sf = opt_view(*sort_field);
    let ghost vf = opt_view(*value_field);
    let ghost rv = records_view(records@);
    let mut tracker = PathTracker::new();
    let mut out = String::new();
    let mut i: usize = 0;
    assert(tv.take(0) =~= Seq::<TokenView>::empty());
    while i < tokens.len()
        invariant
            i <= tokens@.len(),
            tv == tokens_view(tokens@),
            sf == opt_view(*sort_field),
            vf == opt_view(*value_field),
            rv == records_view(records@),
            tracker@ == tracked_frames(tv.take(i as int), sf, vf),
            out@ == rewritten(tv.take(i as int), sf, vf, rv, line_end@),
        decreases tokens@.len() - i,
    {
        let ghost frames = tracker@;
        let ghost before = out@;
        assert(tv.take(i + 1).drop_last() =~= tv.take(i as int));
        assert(tv.take(i + 1).last() == tokens@[i as int]@);
        match &tokens[i] {
            Token::Declaration { version, encoding } => {
                out.append("<?xml version=\"");
                out.append(version.as_str());
                out.append("\"");
                match encoding {
                    Some(e) => {
                        out.append(" encoding=\"");
                        out.append(e.as_str());
                        out.append("\"");
                    },
                    None => {},
                }
                out.append("?>");
                out.append(line_end);
            },
            Token::Comment { text } => {
                out.append("<!-- ");
                out.append(text.as_str());
                out.append(" -->");
            },
            Token::Text { text } => {
                out.append(text.as_str());
            },
            Token::ElementStart { name } => {
                out.append("<");
                out.append(name.as_str());
                tracker.open(name.as_str());
            },
            Token::Attribute { key, value } => {
                tracker.note_attribute(key, value.as_str(), sort_field, value_field);
                out.append(" ");
                out.append(key.as_str());
                out.append("=\"");
                if names_field(value_field, key) {
                    let path = tracker.path();
                    let v = find_replacement(records, path.as_str(), value.as_str());
                    out.append(v.as_str());
                } else {
                    out.append(value.as_str());
                }
                out.append("\"");
            },
            Token::ElementEnd { end } => {
                match end {
                    ElementEnd::Open => {
                        out.append(">");
                    },
                    ElementEnd::Close { name } => {
                        out.append("</");
                        out.append(name.as_str());
                        out.append(">");
                    },
                    ElementEnd::Empty => {
                        out.append(" />");
                    },
                }
                tracker.close(end);
            },
            Token::Other { text } => {
                out.append(text.as_str());
            },
        }
        assert(out@ =~= before + rewrite_piece(frames, tokens@[i as int]@, sf, vf, rv, line_end@));
        i = i + 1;
    }
    assert(tv.take(i as int) =~= tv);
    out
}

/// The rewrite pass over a destination document: the complete new text, as
/// [`rewrite_tokens`] writes it from the document's tokens with the
/// document's own line terminator after the declaration, or
/// [`ExchangeError::MalformedInput`] where the document is not well-formed,
/// with no text at all.
pub fn rewrite(
    destination_text: &str,
    sort_field: &Option<String>,
    value_field: &Option<String>,
    records: &Vec<Record>,
) -> (r: Result<String, ExchangeError>)
    ensures
        match xml_tokens(destination_text@) {
            Some(tv) => r is Ok && r->Ok_0@ == rewritten(
                tv,
                opt_view(*sort_field),
                opt_view(*value_field),
                records_view(records@),
                line_terminator(destination_text@),
            ),
            None => r is Err,
        },
{
    let tokens = tokenize(destination_text)?;
    let line_end = line_terminator_of(destination_text);
    Ok(rewrite_tokens(&tokens, sort_field, value_field, records, line_end))
}

} // verus!
