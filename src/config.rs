//! The five-line configuration of a run, parsed from the lines of its file.

use vstd::prelude::*;

use crate::extract::strings_view;

verus! {

/// The pieces of `s` around each `sep`: each separator starts a new piece,
/// every other character extends the last one (so there is always at least
/// one piece, and a text without `sep` is one piece).
pub open spec fn split_on(s: Seq<char>, sep: char) -> Seq<Seq<char>>
    decreases s.len(),
{
    if s.len() == 0 {
        seq![Seq::empty()]
    } else {
        let p = split_on(s.drop_last(), sep);
        if s.last() == sep {
            p.push(Seq::empty())
        } else {
            p.update(p.len() - 1, p.last().push(s.last()))
        }
    }
}

/// `split_on` always gives at least one piece.
pub proof fn lemma_split_nonempty(s: Seq<char>, sep: char)
    ensures
        split_on(s, sep).len() >= 1,
    decreases s.len(),
{
    if s.len() > 0 {
        lemma_split_nonempty(s.drop_last(), sep);
    }
}

/// The pieces of `s` around each `sep`.
pub fn split_text(s: &str, sep: char) -> (r: Vec<String>)
    ensures
        strings_view(r@) == split_on(s@, sep),
{
    let n = s.unicode_len();
    let mut pieces: Vec<String> = Vec::new();
    let mut start: usize = 0;
    let mut i: usize = 0;
    assert(s@.take(0) =~= Seq::<char>::empty());
    assert(strings_view(pieces@).push(s@.subrange(0, 0)) =~= split_on(s@.take(0), sep));
    while i < n
        invariant
            n == s@.len(),
            start <= i <= n,
            strings_view(pieces@).push(s@.subrange(start as int, i as int)) == split_on(
                s@.take(i as int),
                sep,
            ),
        decreases n - i,
    {
        let c = s.get_char(i);
        let ghost prev = split_on(s@.take(i as int), sep);
        assert(s@.take(i + 1).drop_last() =~= s@.take(i as int));
        assert(s@.take(i + 1).last() == c);
        if c == sep {
            let piece = s.substring_char(start, i).to_owned();
            let ghost old_pieces = pieces@;
            pieces.push(piece);
            assert(strings_view(pieces@) =~= strings_view(old_pieces).push(
                s@.subrange(start as int, i as int),
            ));
            start = i + 1;
            assert(s@.subrange(start as int, i + 1) =~= Seq::<char>::empty());
            assert(strings_view(pieces@).push(s@.subrange(start as int, i + 1)) =~= prev.push(
                Seq::empty(),
            ));
        } else {
            assert(s@.subrange(start as int, i + 1) =~= s@.subrange(start as int, i as int).push(c));
            assert(strings_view(pieces@).push(s@.subrange(start as int, i + 1)) =~= prev.update(
                prev.len() - 1,
                prev.last().push(c),
            ));
        }
        i = i + 1;
    }
    let last = s.substring_char(start, n).to_owned();
    let ghost before = pieces@;
    pieces.push(last);
    assert(s@.take(n as int) =~= s@);
    assert(strings_view(pieces@) =~= strings_view(before).push(s@.subrange(start as int, n as int)));
    pieces
}

/// `s` begins with `prefix`.
pub open spec fn has_prefix(s: Seq<char>, prefix: Seq<char>) -> bool {
    prefix.len() <= s.len() && s.subrange(0, prefix.len() as int) == prefix
}

/// Relies on `str::starts_with` with a `&str` pattern: true exactly when the
/// string begins with the pattern.
#[verifier::external_body]
fn starts_with_text(s: &str, prefix: &str) -> (r: bool)
    ensures
        r == has_prefix(s@, prefix@),
{
    s.starts_with(prefix)
}

/// What `str::trim` gives for `s`: the text without its leading and trailing
/// Unicode white space.
pub uninterp spec fn trimmed(s: Seq<char>) -> Seq<char>;

/// Relies on `str::trim`: `s` without leading and trailing white space, a
/// function of the characters of `s` alone.
#[verifier::external_body]
fn trim_text(s: &str) -> (r: String)
    ensures
        r@ == trimmed(s@),
{
    s.trim().to_owned()
}

/// The value of a line that begins with `prefix` (a key and its `=`):
/// everything after that prefix, `=` signs included.
pub open spec fn setting_value(line: Seq<char>, prefix: Seq<char>) -> Seq<char> {
    line.subrange(prefix.len() as int, line.len() as int)
}

/// The index of the first line from `from` on that begins with `prefix`, or
/// the number of lines if there is none.
pub open spec fn first_prefixed(lines: Seq<Seq<char>>, prefix: Seq<char>, from: int) -> int
    decreases lines.len() - from,
{
    if from >= lines.len() || from < 0 {
        lines.len() as int
    } else if has_prefix(lines[from], prefix) {
        from
    } else {
        first_prefixed(lines, prefix, from + 1)
    }
}

/// Line `j` is absent (the file ended) or begins with `prefix`.
pub open spec fn line_fits(lines: Seq<Seq<char>>, j: int, prefix: Seq<char>) -> bool {
    j >= lines.len() || has_prefix(lines[j], prefix)
}

/// The value of line `j`, which begins with `prefix`, or nothing when the
/// file ended before it.
pub open spec fn value_at(lines: Seq<Seq<char>>, j: int, prefix: Seq<char>) -> Seq<char> {
    if j < lines.len() {
        setting_value(lines[j], prefix)
    } else {
        Seq::empty()
    }
}

/// Which line of a configuration is out of place.
#[derive(Debug, Clone, Copy, PartialEq, Eq)]
pub enum ConfigError {
    /// No line begins with `source=`.
    Source,
    /// The line after it does not begin with `destination=`.
    Destination,
    /// The next one does not begin with `sort_key=`.
    SortKey,
    /// The next one does not begin with `value_key=`.
    ValueKey,
    /// The next one does not begin with `tags_to_ignore=`.
    TagsToIgnore,
}

/// The settings of a run.
#[derive(Debug, Clone, PartialEq, Eq)]
pub struct Config {
    pub source: String,
    pub destination: String,
    pub sort_key: String,
    pub value_key: String,
    pub tags_to_ignore: Vec<String>,
}

/// The index of the `source=` line.
pub open spec fn source_line(lines: Seq<Seq<char>>) -> int {
    first_prefixed(lines, "source="@, 0)
}

/// The error of a configuration, if any: the first line, in file order, that
/// is out of place.
pub open spec fn config_error(lines: Seq<Seq<char>>) -> Option<ConfigError> {
    let k = source_line(lines);
    if k == lines.len() {
        Some(ConfigError::Source)
    } else if !line_fits(lines, k + 1, "destination="@) {
        Some(ConfigError::Destination)
    } else if !line_fits(lines, k + 2, "sort_key="@) {
        Some(ConfigError::SortKey)
    } else if !line_fits(lines, k + 3, "value_key="@) {
        Some(ConfigError::ValueKey)
    } else if !line_fits(lines, k + 4, "tags_to_ignore="@) {
        Some(ConfigError::TagsToIgnore)
    } else {
        None
    }
}

/// The ignore rules of a configuration: the pieces of the value of the
/// `tags_to_ignore=` line around each comma, trimmed; none when the file
/// ended before that line.
pub open spec fn config_tags(lines: Seq<Seq<char>>) -> Seq<Seq<char>> {
    let j = source_line(lines) + 4;
    if j < lines.len() {
        split_on(setting_value(lines[j], "tags_to_ignore="@), ',').map_values(|p: Seq<char>| trimmed(p))
    } else {
        Seq::empty()
    }
}

/// The value of the line `k + off` of `lines` if it is absent or begins with
/// `prefix`; `None` when it is there and begins otherwise.
fn setting_at(lines: &Vec<String>, k: usize, off: usize, prefix: &str) -> (r: Option<String>)
    requires
        k < lines@.len(),
    ensures
        r is Some <==> line_fits(strings_view(lines@), k + off, prefix@),
        r is Some ==> r->Some_0@ == value_at(strings_view(lines@), k + off, prefix@),
{
    if off >= lines.len() - k {
        return Some(String::new());
    }
    let j = k + off;
    let line = lines[j].as_str();
    assert(strings_view(lines@)[j as int] == line@);
    if !starts_with_text(line, prefix) {
        return None;
    }
    let n = line.unicode_len();
    let start = prefix.unicode_len();
    Some(line.substring_char(start, n).to_owned())
}

/// Reads the settings from the lines of a configuration file: the first line
/// that begins with `source=`, then, each on the next line, `destination=`,
/// `sort_key=`, `value_key=` and `tags_to_ignore=` (a comma-separated list of
/// ignore rules, each trimmed). A setting whose line is missing because the
/// file ended stays empty; a line there that begins otherwise is an error.
pub fn parse_config_file(lines: &Vec<String>) -> (r: Result<Config, ConfigError>)
    ensures
        match config_error(strings_view(lines@)) {
            Some(e) => r == Err::<Config, ConfigError>(e),
            None => r is Ok && {
                let c = r->Ok_0;
                let ls = strings_view(lines@);
                let k = source_line(ls);
                &&& c.source@ == value_at(ls, k, "source="@)
                &&& c.destination@ == value_at(ls, k + 1, "destination="@)
                &&& c.sort_key@ == value_at(ls, k + 2, "sort_key="@)
                &&& c.value_key@ == value_at(ls, k + 3, "value_key="@)
                &&& strings_view(c.tags_to_ignore@) == config_tags(ls)
            },
        },
{
    let ghost ls = strings_view(lines@);
    let mut k: usize = 0;
    loop
        invariant
            k <= lines@.len(),
            ls == strings_view(lines@),
            source_line(ls) == first_prefixed(ls, "source="@, k as int),
        ensures
            k < lines@.len(),
            source_line(ls) == k,
            has_prefix(ls[k as int], "source="@),
        decreases lines@.len() - k,
    {
        if k == lines.len() {
            return Err(ConfigError::Source);
        }
        assert(ls[k as int] == lines@[k as int]@);
        if starts_with_text(lines[k].as_str(), "source=") {
            break;
        }
        k = k + 1;
    }
    let source = match setting_at(lines, k, 0, "source=") {
        Some(v) => v,
        None => return Err(ConfigError::Source),
    };
    let destination = match setting_at(lines, k, 1, "destination=") {
        Some(v) => v,
        None => return Err(ConfigError::Destination),
    };
    let sort_key = match setting_at(lines, k, 2, "sort_key=") {
        Some(v) => v,
        None => return Err(ConfigError::SortKey),
    };
    let value_key = match setting_at(lines, k, 3, "value_key=") {
        Some(v) => v,
        None => return Err(ConfigError::ValueKey),
    };
    let tags = match setting_at(lines, k, 4, "tags_to_ignore=") {
        Some(v) => v,
        None => return Err(ConfigError::TagsToIgnore),
    };
    let mut tags_to_ignore: Vec<String> = Vec::new();
    if 4 < lines.len() - k {
        let pieces = split_text(tags.as_str(), ',');
        let ghost ps = strings_view(pieces@);
        let mut i: usize = 0;
        while i < pieces.len()
            invariant
                i <= pieces@.len(),
                ps == strings_view(pieces@),
                strings_view(tags_to_ignore@) =~= ps.take(i as int).map_values(
                    |p: Seq<char>| trimmed(p),
                ),
            decreases pieces@.len() - i,
        {
            let t = trim_text(pieces[i].as_str());
            let ghost before = tags_to_ignore@;
            tags_to_ignore.push(t);
            assert(ps[i as int] == pieces@[i as int]@);
            assert(strings_view(tags_to_ignore@) =~= strings_view(before).push(trimmed(ps[i as int])));
            assert(ps.take(i + 1).map_values(|p: Seq<char>| trimmed(p)) =~= ps.take(
                i as int,
            ).map_values(|p: Seq<char>| trimmed(p)).push(trimmed(ps[i as int])));
            i = i + 1;
        }
        assert(ps.take(i as int) =~= ps);
    }
    Ok(Config { source, destination, sort_key, value_key, tags_to_ignore })
}

} // verus!
