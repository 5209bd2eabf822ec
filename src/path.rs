//! The path of the element being read, kept as a stack of open elements.

use vstd::prelude::*;

use crate::token::{opt_view, ElementEnd, EndView, TokenView};

verus! {

/// Put before every segment of a rendered path.
pub open spec fn separator() -> Seq<char> {
    seq![':', ':']
}

/// Put before a pending value in a rendered path.
pub open spec fn value_marker() -> Seq<char> {
    seq!['?', '?']
}

/// The mathematical value of a [`Frame`].
pub struct FrameView {
    pub tag: Seq<char>,
    pub sort: Option<Seq<char>>,
    pub pending: Option<Seq<char>>,
}

/// One open element: its tag name, the sort-field value seen on it, and the
/// value-field text that waits for the element to end.
pub struct Frame {
    pub tag: String,
    pub sort: Option<String>,
    pub pending: Option<String>,
}

impl View for Frame {
    type V = FrameView;

    open spec fn view(&self) -> FrameView {
        FrameView { tag: self.tag@, sort: opt_view(self.sort), pending: opt_view(self.pending) }
    }
}

/// The segments one open element adds to a path: its tag name, then its
/// sort value if it has one.
pub open spec fn frame_text(f: FrameView) -> Seq<char> {
    separator() + f.tag + match f.sort {
        Some(s) => separator() + s,
        None => Seq::empty(),
    }
}

/// The rendered path of a stack of open elements, outermost first.
pub open spec fn path_text(frames: Seq<FrameView>) -> Seq<char>
    decreases frames.len(),
{
    if frames.len() == 0 {
        Seq::empty()
    } else {
        path_text(frames.drop_last()) + frame_text(frames.last())
    }
}

/// The rendered path followed by the innermost element's pending value, if
/// any, behind the value marker.
pub open spec fn marked_path_text(frames: Seq<FrameView>) -> Seq<char> {
    path_text(frames) + if frames.len() > 0 && frames.last().pending is Some {
        value_marker() + frames.last().pending->Some_0
    } else {
        Seq::empty()
    }
}

/// The stack after an element with tag `tag` opens.
pub open spec fn open_frames(frames: Seq<FrameView>, tag: Seq<char>) -> Seq<FrameView> {
    frames.push(FrameView { tag, sort: None, pending: None })
}

/// The stack after the attribute `key="value"` is read on the innermost
/// element: a sort-field attribute sets its sort value, a value-field
/// attribute sets (or replaces) its pending value.
pub open spec fn note_frames(
    frames: Seq<FrameView>,
    key: Seq<char>,
    value: Seq<char>,
    sort_field: Option<Seq<char>>,
    value_field: Option<Seq<char>>,
) -> Seq<FrameView> {
    if frames.len() == 0 {
        frames
    } else {
        let f = frames.last();
        frames.update(
            frames.len() - 1,
            FrameView {
                tag: f.tag,
                sort: if sort_field == Some(key) {
                    Some(value)
                } else {
                    f.sort
                },
                pending: if value_field == Some(key) {
                    Some(value)
                } else {
                    f.pending
                },
            },
        )
    }
}

/// Whether an element end finishes the element (an end tag or `/>`), as
/// opposed to only finishing its start tag.
pub open spec fn ends_element(end: EndView) -> bool {
    !(end is Open)
}

/// The stack after an element end: an end tag and a self-closing `/>` both
/// remove the innermost element, with its tag-name segment and its sort
/// segment together; the end of a start tag changes nothing.
pub open spec fn close_frames(frames: Seq<FrameView>, end: EndView) -> Seq<FrameView> {
    if ends_element(end) && frames.len() > 0 {
        frames.drop_last()
    } else {
        frames
    }
}

/// The pending value that an element end detaches, if any.
pub open spec fn detached_value(frames: Seq<FrameView>, end: EndView) -> Option<Seq<char>> {
    if ends_element(end) && frames.len() > 0 {
        frames.last().pending
    } else {
        None
    }
}

/// The stack after one token: a start tag opens an element, an attribute is
/// noted on the innermost element, an element end closes as
/// [`close_frames`] says, and any other token changes nothing.
pub open spec fn step_frames(
    frames: Seq<FrameView>,
    t: TokenView,
    sort_field: Option<Seq<char>>,
    value_field: Option<Seq<char>>,
) -> Seq<FrameView> {
    match t {
        TokenView::ElementStart(name) => open_frames(frames, name),
        TokenView::Attribute(key, value) => note_frames(frames, key, value, sort_field, value_field),
        TokenView::ElementEnd(end) => close_frames(frames, end),
        _ => frames,
    }
}

/// The stack after all of `tokens`, read left to right from no open element.
pub open spec fn tracked_frames(
    tokens: Seq<TokenView>,
    sort_field: Option<Seq<char>>,
    value_field: Option<Seq<char>>,
) -> Seq<FrameView>
    decreases tokens.len(),
{
    if tokens.len() == 0 {
        Seq::empty()
    } else {
        step_frames(
            tracked_frames(tokens.drop_last(), sort_field, value_field),
            tokens.last(),
            sort_field,
            value_field,
        )
    }
}

/// The nesting depth after `tokens`: one more for each start tag, one less
/// for each end tag or `/>` that closes an open element.
pub open spec fn nesting_depth(tokens: Seq<TokenView>) -> nat
    decreases tokens.len(),
{
    if tokens.len() == 0 {
        0
    } else {
        let d = nesting_depth(tokens.drop_last());
        match tokens.last() {
            TokenView::ElementStart(_) => d + 1,
            TokenView::ElementEnd(end) => if ends_element(end) && d > 0 {
                (d - 1) as nat
            } else {
                d
            },
            _ => d,
        }
    }
}

/// Whatever the document, the number of tag-name segments on the path (one
/// per open element) is the nesting depth, after an end tag and after a
/// self-closing element alike.
pub proof fn lemma_depth_invariant(
    tokens: Seq<TokenView>,
    sort_field: Option<Seq<char>>,
    value_field: Option<Seq<char>>,
)
    ensures
        tracked_frames(tokens, sort_field, value_field).len() == nesting_depth(tokens),
    decreases tokens.len(),
{
    if tokens.len() > 0 {
        lemma_depth_invariant(tokens.drop_last(), sort_field, value_field);
    }
}

/// A self-closing element leaves the path as the end of its start tag
/// followed by its end tag would, with or without a sort field.
pub proof fn lemma_empty_as_open_close(
    frames: Seq<FrameView>,
    name: Seq<char>,
    sort_field: Option<Seq<char>>,
    value_field: Option<Seq<char>>,
)
    ensures
        step_frames(frames, TokenView::ElementEnd(EndView::Empty), sort_field, value_field)
            == step_frames(
            step_frames(frames, TokenView::ElementEnd(EndView::Open), sort_field, value_field),
            TokenView::ElementEnd(EndView::Close(name)),
            sort_field,
            value_field,
        ),
{
}

/// Unfolds [`path_text`] over a prefix one element longer.
pub proof fn lemma_path_text_take(frames: Seq<FrameView>, i: int)
    requires
        0 <= i < frames.len(),
    ensures
        path_text(frames.take(i + 1)) == path_text(frames.take(i)) + frame_text(frames[i]),
{
    assert(frames.take(i + 1).drop_last() =~= frames.take(i));
}

/// Whether the configured attribute name `field` is `key`.
pub fn names_field(field: &Option<String>, key: &String) -> (r: bool)
    ensures
        r == (opt_view(*field) == Some(key@)),
{
    match field {
        Some(f) => *f == *key,
        None => false,
    }
}

/// Tracks the path of the element being read while a document streams by.
pub struct PathTracker {
    frames: Vec<Frame>,
}

impl View for PathTracker {
    type V = Seq<FrameView>;

    closed spec fn view(&self) -> Seq<FrameView> {
        self.frames@.map_values(|f: Frame| f@)
    }
}

impl PathTracker {
    /// A tracker outside any element.
    pub fn new() -> (r: PathTracker)
        ensures
            r@ == Seq::<FrameView>::empty(),
    {
        let r = PathTracker { frames: Vec::new() };
        assert(r@ =~= Seq::<FrameView>::empty());
        r
    }

    /// The number of open elements, which is the number of tag-name segments
    /// on the path.
    pub fn depth(&self) -> (r: usize)
        ensures
            r == self@.len(),
    {
        self.frames.len()
    }

    /// An element with tag `tag` opens.
    pub fn open(&mut self, tag: &str)
        ensures
            final(self)@ == open_frames(old(self)@, tag@),
    {
        let f = Frame { tag: tag.to_owned(), sort: None, pending: None };
        self.frames.push(f);
        assert(self@ =~= open_frames(old(self)@, tag@));
    }
    /// The attribute `key="value"` is read on the innermost open element.
    pub fn note_attribute(
        &mut self,
        key: &String,
        value: &str,
        sort_field: &Option<String>,
        value_field: &Option<String>,
    )
        ensures
            final(self)@ == note_frames(
                old(self)@,
                key@,
                value@,
                opt_view(*sort_field),
                opt_view(*value_field),
            ),
    {
        if self.frames.len() == 0 {
            return;
        }
        let ghost before = self@;
        let f = self.frames.pop().unwrap();
        assert(f@ == before[before.len() - 1]);
        let sort = if names_field(sort_field, key) {
            Some(value.to_owned())
        } else {
            f.sort
        };
        let pending = if names_field(value_field, key) {
            Some(value.to_owned())
        } else {
            f.pending
        };
        let nf = Frame { tag: f.tag, sort, pending };
        self.frames.push(nf);
        assert(self@ =~= note_frames(
            before,
            key@,
            value@,
            opt_view(*sort_field),
            opt_view(*value_field),
        ));
    }

    /// An element end is read. Returns the pending value that it detaches
    /// from the element that ends, if any.
    pub fn close(&mut self, end: &ElementEnd) -> (r: Option<String>)
        ensures
            final(self)@ == close_frames(old(self)@, end@),
            opt_view(r) == detached_value(old(self)@, end@),
    {
        match end {
            ElementEnd::Open => None,
            _ => {
                if self.frames.len() == 0 {
                    return None;
                }
                let ghost before = self@;
                let f = self.frames.pop().unwrap();
                assert(self@ =~= before.drop_last());
                f.pending
            },
        }
    }

    /// The rendered path: for each open element, the separator and its tag
    /// name, then the separator and its sort value if it has one.
    pub fn path(&self) -> (r: String)
        ensures
            r@ == path_text(self@),
    {
        let mut r = String::new();
        let mut i: usize = 0;
        while i < self.frames.len()
            invariant
                i <= self.frames@.len(),
                r@ == path_text(self@.take(i as int)),
            decreases self.frames@.len() - i,
        {
            proof {
                reveal_strlit("::");
                assert("::"@ =~= separator());
            }
            let f = &self.frames[i];
            assert(f@ == self@[i as int]);
            r.append("::");
            r.append(f.tag.as_str());
            match &f.sort {
                Some(s) => {
                    r.append("::");
                    r.append(s.as_str());
                },
                None => {},
            }
            proof {
                lemma_path_text_take(self@, i as int);
            }
            assert(r@ =~= path_text(self@.take(i + 1)));
            i = i + 1;
        }
        assert(self@.take(i as int) =~= self@);
        r
    }

    /// The rendered path followed by the innermost element's pending value
    /// behind the value marker, if it has one.
    pub fn marked_path(&self) -> (r: String)
        ensures
            r@ == marked_path_text(self@),
    {
        let mut r = self.path();
        proof {
            reveal_strlit("??");
            assert("??"@ =~= value_marker());
        }
        let n = self.frames.len();
        if n > 0 {
            match &self.frames[n - 1].pending {
                Some(p) => {
                    r.append("??");
                    r.append(p.as_str());
                },
                None => {},
            }
        }
        assert(r@ =~= marked_path_text(self@));
        r
    }
}

} // verus!
