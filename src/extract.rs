//! The extraction pass: collects (path, value) records from a source document.

use vstd::prelude::*;

use crate::path::{
    detached_value, marked_path_text, path_text, step_frames, tracked_frames, FrameView,
    PathTracker,
};
use crate::text::{contains_text, is_substring, lemma_substring_of_prefix};
use crate::token::{
    opt_view, tokenize, tokens_view, xml_tokens, EndView, ExchangeError, Token, TokenView,
};

verus! {

/// The mathematical value of a [`Record`].
pub struct RecordView {
    pub path: Seq<char>,
    pub value: Seq<char>,
}

/// A captured pair: the path of an element of the source document and the
/// text of its value-field attribute.
#[derive(Debug, Clone, PartialEq, Eq)]
pub struct Record {
    pub path: String,
    pub value: String,
}

impl View for Record {
    type V = RecordView;

    open spec fn view(&self) -> RecordView {
        RecordView { path: self.path@, value: self.value@ }
    }
}

/// The views of a sequence of records.
pub open spec fn records_view(records: Seq<Record>) -> Seq<RecordView> {
    records.map_values(|r: Record| r@)
}

/// The views of a sequence of strings.
pub open spec fn strings_view(v: Seq<String>) -> Seq<Seq<char>> {
    v.map_values(|s: String| s@)
}

/// Some ignore rule occurs in `path`.
pub open spec fn ignored(path: Seq<char>, rules: Seq<Seq<char>>) -> bool {
    exists|i: int| 0 <= i < rules.len() && is_substring(#[trigger] rules[i], path)
}

/// What the extraction pass holds between two tokens: the open elements and
/// the records collected so far.
pub struct ExtractState {
    pub frames: Seq<FrameView>,
    pub records: Seq<RecordView>,
}

/// The extraction pass before its first token.
pub open spec fn extract_start() -> ExtractState {
    ExtractState { frames: Seq::empty(), records: Seq::empty() }
}

/// One token of the extraction pass. When an element ends with a pending
/// value, the record (path of the element, value) is kept unless an ignore
/// rule occurs in the path as it stood with the value marker and value.
pub open spec fn extract_step(
    st: ExtractState,
    t: TokenView,
    sort_field: Option<Seq<char>>,
    value_field: Option<Seq<char>>,
    rules: Seq<Seq<char>>,
) -> ExtractState {
    let frames = step_frames(st.frames, t, sort_field, value_field);
    match t {
        TokenView::ElementEnd(end) => ExtractState {
            frames,
            records: match detached_value(st.frames, end) {
                Some(v) => if ignored(marked_path_text(st.frames), rules) {
                    st.records
                } else {
                    st.records.push(RecordView { path: path_text(st.frames), value: v })
                },
                None => st.records,
            },
        },
        _ => ExtractState { frames, records: st.records },
    }
}

/// The extraction pass after all of `tokens`, read left to right.
pub open spec fn extract_run(
    tokens: Seq<TokenView>,
    sort_field: Option<Seq<char>>,
    value_field: Option<Seq<char>>,
    rules: Seq<Seq<char>>,
) -> ExtractState
    decreases tokens.len(),
{
    if tokens.len() == 0 {
        extract_start()
    } else {
        extract_step(
            extract_run(tokens.drop_last(), sort_field, value_field, rules),
            tokens.last(),
            sort_field,
            value_field,
            rules,
        )
    }
}

/// The records that extraction collects from `tokens`, in document order.
pub open spec fn extracted(
    tokens: Seq<TokenView>,
    sort_field: Option<Seq<char>>,
    value_field: Option<Seq<char>>,
    rules: Seq<Seq<char>>,
) -> Seq<RecordView> {
    extract_run(tokens, sort_field, value_field, rules).records
}

/// The open elements of the extraction pass are those that [`tracked_frames`]
/// gives.
pub proof fn lemma_extract_frames(
    tokens: Seq<TokenView>,
    sort_field: Option<Seq<char>>,
    value_field: Option<Seq<char>>,
    rules: Seq<Seq<char>>,
)
    ensures
        extract_run(tokens, sort_field, value_field, rules).frames == tracked_frames(
            tokens,
            sort_field,
            value_field,
        ),
    decreases tokens.len(),
{
    if tokens.len() > 0 {
        lemma_extract_frames(tokens.drop_last(), sort_field, value_field, rules);
    }
}

/// No record that extraction keeps has an ignore rule in its path, whatever
/// its value.
pub proof fn lemma_ignored_never_extracted(
    tokens: Seq<TokenView>,
    sort_field: Option<Seq<char>>,
    value_field: Option<Seq<char>>,
    rules: Seq<Seq<char>>,
)
    ensures
        forall|i: int|
            0 <= i < extracted(tokens, sort_field, value_field, rules).len() ==> !ignored(
                #[trigger] extracted(tokens, sort_field, value_field, rules)[i].path,
                rules,
            ),
    decreases tokens.len(),
{
    if tokens.len() > 0 {
        let prev = tokens.drop_last();
        lemma_ignored_never_extracted(prev, sort_field, value_field, rules);
        let st = extract_run(prev, sort_field, value_field, rules);
        let recs = extracted(tokens, sort_field, value_field, rules);
        if recs.len() > st.records.len() {
            let p = path_text(st.frames);
            let m = marked_path_text(st.frames);
            assert(recs == st.records.push(recs.last()));
            assert(recs.last().path == p);
            assert(!ignored(m, rules));
            assert(p + m.subrange(p.len() as int, m.len() as int) =~= m);
            assert forall|j: int| 0 <= j < rules.len() implies !is_substring(
                #[trigger] rules[j],
                p,
            ) by {
                if is_substring(rules[j], p) {
                    lemma_substring_of_prefix(rules[j], p, m.subrange(p.len() as int, m.len() as int));
                }
            }
        } else {
            assert(recs == st.records);
        }
        assert forall|i: int| 0 <= i < recs.len() implies !ignored(#[trigger] recs[i].path, rules) by {
            if i < st.records.len() {
                assert(recs[i] == st.records[i]);
                assert(st.records[i] == extracted(prev, sort_field, value_field, rules)[i]);
            }
        }
    }
}

/// Two token sequences that leave extraction in the same state still do so
/// after the same tokens follow both.
pub proof fn lemma_extract_same_suffix(
    a: Seq<TokenView>,
    b: Seq<TokenView>,
    post: Seq<TokenView>,
    sort_field: Option<Seq<char>>,
    value_field: Option<Seq<char>>,
    rules: Seq<Seq<char>>,
)
    requires
        extract_run(a, sort_field, value_field, rules) == extract_run(b, sort_field, value_field, rules),
    ensures
        extract_run(a + post, sort_field, value_field, rules) == extract_run(
            b + post,
            sort_field,
            value_field,
            rules,
        ),
    decreases post.len(),
{
    if post.len() == 0 {
        assert(a + post =~= a);
        assert(b + post =~= b);
    } else {
        lemma_extract_same_suffix(a, b, post.drop_last(), sort_field, value_field, rules);
        assert((a + post).drop_last() =~= a + post.drop_last());
        assert((b + post).drop_last() =~= b + post.drop_last());
    }
}

/// A self-closing element and the same element written with a start tag and
/// an end tag give the same records: extraction of `pre`, `/>`, `post` equals
/// extraction of `pre`, `>`, `</name>`, `post`.
pub proof fn lemma_empty_element_as_open_close(
    pre: Seq<TokenView>,
    name: Seq<char>,
    post: Seq<TokenView>,
    sort_field: Option<Seq<char>>,
    value_field: Option<Seq<char>>,
    rules: Seq<Seq<char>>,
)
    ensures
        extract_run(
            pre.push(TokenView::ElementEnd(EndView::Empty)) + post,
            sort_field,
            value_field,
            rules,
        ) == extract_run(
            pre.push(TokenView::ElementEnd(EndView::Open)).push(
                TokenView::ElementEnd(EndView::Close(name)),
            ) + post,
            sort_field,
            value_field,
            rules,
        ),
{
    let a = pre.push(TokenView::ElementEnd(EndView::Empty));
    let open = pre.push(TokenView::ElementEnd(EndView::Open));
    let b = open.push(TokenView::ElementEnd(EndView::Close(name)));
    assert(a.drop_last() =~= pre);
    assert(open.drop_last() =~= pre);
    assert(b.drop_last() =~= open);
    assert(extract_run(open, sort_field, value_field, rules) == extract_run(
        pre,
        sort_field,
        value_field,
        rules,
    ));
    lemma_extract_same_suffix(a, b, post, sort_field, value_field, rules);
}

/// Whether some rule of `rules` occurs in `path`.
pub fn is_ignored(path: &str, rules: &Vec<String>) -> (r: bool)
    ensures
        r == ignored(path@, strings_view(rules@)),
{
    let mut i: usize = 0;
    while i < rules.len()
        invariant
            i <= rules@.len(),
            forall|j: int| 0 <= j < i ==> !is_substring(#[trigger] rules@[j]@, path@),
        decreases rules@.len() - i,
    {
        if contains_text(path, rules[i].as_str()) {
            assert(strings_view(rules@)[i as int] == rules@[i as int]@);
            return true;
        }
        i = i + 1;
    }
    assert forall|j: int| 0 <= j < strings_view(rules@).len() implies !is_substring(
        #[trigger] strings_view(rules@)[j],
        path@,
    ) by {
        assert(strings_view(rules@)[j] == rules@[j]@);
    }
    false
}

/// Collects the records of a token stream: for every element that ends
/// carrying a value-field attribute, its path and that attribute's text,
/// in the order in which the elements end, leaving out those whose path
/// (with the value marker and value) holds an ignore rule.
pub fn extract_records(
    tokens: &Vec<Token>,
    sort_field: &Option<String>,
    value_field: &Option<String>,
    ignore_rules: &Vec<String>,
) -> (r: Vec<Record>)
    ensures
        records_view(r@) == extracted(
            tokens_view(tokens@),
            opt_view(*sort_field),
            opt_view(*value_field),
            strings_view(ignore_rules@),
        ),
{
    let ghost tv = tokens_view(tokens@);
    let ghost sf = opt_view(*sort_field);
    let ghost vf = opt_view(*value_field);
    let ghost rules = strings_view(ignore_rules@);
    let mut tracker = PathTracker::new();
    let mut out: Vec<Record> = Vec::new();
    let mut i: usize = 0;
    assert(out@ =~= Seq::<Record>::empty());
    assert(records_view(out@) =~= Seq::<RecordView>::empty());
    assert(tv.take(0) =~= Seq::<TokenView>::empty());
    while i < tokens.len()
        invariant
            i <= tokens@.len(),
            tv == tokens_view(tokens@),
            sf == opt_view(*sort_field),
            vf == opt_view(*value_field),
            rules == strings_view(ignore_rules@),
            tracker@ == tracked_frames(tv.take(i as int), sf, vf),
            records_view(out@) == extract_run(tv.take(i as int), sf, vf, rules).records,
        decreases tokens@.len() - i,
    {
        proof {
            lemma_extract_frames(tv.take(i as int), sf, vf, rules);
        }
        assert(tv.take(i + 1).drop_last() =~= tv.take(i as int));
        assert(tv.take(i + 1).last() == tokens@[i as int]@);
        match &tokens[i] {
            Token::ElementStart { name } => {
                tracker.open(name.as_str());
            },
            Token::Attribute { key, value } => {
                tracker.note_attribute(key, value.as_str(), sort_field, value_field);
            },
            Token::ElementEnd { end } => {
                let marked = tracker.marked_path();
                let path = tracker.path();
                let detached = tracker.close(end);
                match detached {
                    Some(v) => {
                        if !is_ignored(marked.as_str(), ignore_rules) {
                            let ghost before = out@;
                            out.push(Record { path, value: v });
                            assert(records_view(out@) =~= records_view(before).push(
                                out@.last()@,
                            ));
                        }
                    },
                    None => {},
                }
            },
            _ => {},
        }
        i = i + 1;
    }
    assert(tv.take(i as int) =~= tv);
    out
}

/// Extraction over a source document: its records, as [`extract_records`]
/// collects them from its tokens, or [`ExchangeError::MalformedInput`] where
/// the document is not well-formed, with no records at all.
pub fn extract(
    source_text: &str,
    sort_field: &Option<String>,
    value_field: &Option<String>,
    ignore_rules: &Vec<String>,
) -> (r: Result<Vec<Record>, ExchangeError>)
    ensures
        match xml_tokens(source_text@) {
            Some(tv) => r is Ok && records_view(r->Ok_0@) == extracted(
                tv,
                opt_view(*sort_field),
                opt_view(*value_field),
                strings_view(ignore_rules@),
            ),
            None => r is Err,
        },
{
    let tokens = tokenize(source_text)?;
    Ok(extract_records(&tokens, sort_field, value_field, ignore_rules))
}

} // verus!
