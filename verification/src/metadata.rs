//! The declaration block at the head of a node: `title`, `tags`, `tracking`
//! and custom lines.

use vstd::prelude::*;
use vstd::string::*;
use crate::text::{
    after_colon, agrees, all_whitespace, chars_of, lemma_eq_ignore_case_chain,
    lemma_trimmed_skips_surroundings, eq_ignore_case, matches_ignore_case, skip_whitespace, split_on,
    split_trimmed, string_of, texts, trim_each, trimmed, trimmed_string_of,
};

verus! {

/// One raw line of a script with the number it has in its file.
#[derive(Debug, Clone, PartialEq, Eq)]
pub struct UnparsedLine {
    pub line_number: usize,
    pub text: String,
}

/// Whether visits of a node are recorded.
#[derive(Debug, Copy, Clone, PartialEq, Eq, Structural)]
pub enum TrackingSetting {
    Always,
    Never,
}

/// What a node declares about itself.
#[derive(Debug, Clone, PartialEq, Eq)]
pub struct NodeMetadata {
    pub title: String,
    pub tags: Vec<String>,
    pub tracking: Option<TrackingSetting>,
    pub customs: Vec<String>,
}

/// One parsed declaration line.
#[derive(Debug, Clone, PartialEq, Eq)]
pub enum MetaLine {
    Title(String),
    Tags(Vec<String>),
    Tracking(TrackingSetting),
    Custom(String),
}

/// Why a declaration block was refused.
#[allow(inconsistent_fields)]
#[derive(Debug, Clone, PartialEq, Eq)]
pub enum MetadataError {
    /// A `title:` line with nothing after the colon.
    MissingTitleName { line_number: usize, text: String },
    /// A `tracking:` line whose value is neither `always` nor `never`.
    InvalidTracking { line_number: usize, text: String, value: String },
    /// A second `title:` line.
    DuplicateTitle { first_line: usize, first: String, second_line: usize, second: String },
    /// A second `tracking:` line.
    DuplicateTracking {
        first_line: usize,
        first: TrackingSetting,
        second_line: usize,
        second: TrackingSetting,
    },
    /// No `title:` line at all.
    MissingTitle,
    /// The title starts with something other than an ASCII letter or `_`.
    InvalidTitleStart { line_number: usize, title: String, found: char },
    /// The title holds something other than ASCII letters, digits and `_`.
    InvalidTitleCharacter { line_number: usize, title: String, found: char },
}

pub struct NodeMetadataView {
    pub title: Seq<char>,
    pub tags: Seq<Seq<char>>,
    pub tracking: Option<TrackingSetting>,
    pub customs: Seq<Seq<char>>,
}

pub enum MetaLineView {
    Title(Seq<char>),
    Tags(Seq<Seq<char>>),
    Tracking(TrackingSetting),
    Custom(Seq<char>),
}

#[allow(inconsistent_fields)]
pub enum MetadataErrorView {
    MissingTitleName { line_number: usize, text: Seq<char> },
    InvalidTracking { line_number: usize, text: Seq<char>, value: Seq<char> },
    DuplicateTitle { first_line: usize, first: Seq<char>, second_line: usize, second: Seq<char> },
    DuplicateTracking {
        first_line: usize,
        first: TrackingSetting,
        second_line: usize,
        second: TrackingSetting,
    },
    MissingTitle,
    InvalidTitleStart { line_number: usize, title: Seq<char>, found: char },
    InvalidTitleCharacter { line_number: usize, title: Seq<char>, found: char },
}

impl TrackingSetting {
    /// The setting's qualified name in emitted source.
    pub fn qualified_name(self) -> (r: &'static str)
        ensures
            r@ == match self {
                TrackingSetting::Always => "TrackingSetting::Always"@,
                TrackingSetting::Never => "TrackingSetting::Never"@,
            },
    {
        match self {
            TrackingSetting::Always => "TrackingSetting::Always",
            TrackingSetting::Never => "TrackingSetting::Never",
        }
    }
}

impl NodeMetadata {
    /// Whether the metadata is well formed: its title is a valid title.
    pub open spec fn well_formed(&self) -> bool {
        valid_title(self.title@)
    }
}

impl View for NodeMetadata {
    type V = NodeMetadataView;

    open spec fn view(&self) -> NodeMetadataView {
        NodeMetadataView {
            title: self.title@,
            tags: texts(self.tags@),
            tracking: self.tracking,
            customs: texts(self.customs@),
        }
    }
}

impl View for MetaLine {
    type V = MetaLineView;

    open spec fn view(&self) -> MetaLineView {
        match *self {
            MetaLine::Title(t) => MetaLineView::Title(t@),
            MetaLine::Tags(t) => MetaLineView::Tags(texts(t@)),
            MetaLine::Tracking(t) => MetaLineView::Tracking(t),
            MetaLine::Custom(c) => MetaLineView::Custom(c@),
        }
    }
}

impl View for MetadataError {
    type V = MetadataErrorView;

    open spec fn view(&self) -> MetadataErrorView {
        match *self {
            MetadataError::MissingTitleName { line_number, text } => {
                MetadataErrorView::MissingTitleName { line_number, text: text@ }
            },
            MetadataError::InvalidTracking { line_number, text, value } => {
                MetadataErrorView::InvalidTracking { line_number, text: text@, value: value@ }
            },
            MetadataError::DuplicateTitle { first_line, first, second_line, second } => {
                MetadataErrorView::DuplicateTitle {
                    first_line,
                    first: first@,
                    second_line,
                    second: second@,
                }
            },
            MetadataError::DuplicateTracking { first_line, first, second_line, second } => {
                MetadataErrorView::DuplicateTracking { first_line, first, second_line, second }
            },
            MetadataError::MissingTitle => MetadataErrorView::MissingTitle,
            MetadataError::InvalidTitleStart { line_number, title, found } => {
                MetadataErrorView::InvalidTitleStart { line_number, title: title@, found }
            },
            MetadataError::InvalidTitleCharacter { line_number, title, found } => {
                MetadataErrorView::InvalidTitleCharacter { line_number, title: title@, found }
            },
        }
    }
}

/// The value of a declaration: if the trimmed line `t` starts with the keyword
/// `kw` in any case, then optional whitespace, then a colon, what follows the
/// colon, trimmed.
pub open spec fn after_keyword(t: Seq<char>, kw: Seq<char>) -> Option<Seq<char>> {
    if t.len() >= kw.len() && eq_ignore_case(t.subrange(0, kw.len() as int), kw) {
        match after_colon(t.subrange(kw.len() as int, t.len() as int)) {
            Some(rest) => Some(trimmed(rest)),
            None => None,
        }
    } else {
        None
    }
}

/// The tracking setting that a value names, in any case.
pub open spec fn tracking_of(value: Seq<char>) -> Option<TrackingSetting> {
    if eq_ignore_case(value, "always"@) {
        Some(TrackingSetting::Always)
    } else if eq_ignore_case(value, "never"@) {
        Some(TrackingSetting::Never)
    } else {
        None
    }
}

/// What one declaration line means.
pub open spec fn meta_line_of(line_number: usize, text: Seq<char>) -> Result<
    MetaLineView,
    MetadataErrorView,
> {
    let t = trimmed(text);
    if let Some(name) = after_keyword(t, "title"@) {
        if name.len() > 0 {
            Ok(MetaLineView::Title(name))
        } else {
            Err(MetadataErrorView::MissingTitleName { line_number, text })
        }
    } else if let Some(list) = after_keyword(t, "tags"@) {
        Ok(MetaLineView::Tags(trim_each(split_on(list, ','))))
    } else if let Some(value) = after_keyword(t, "tracking"@) {
        match tracking_of(value) {
            Some(setting) => Ok(MetaLineView::Tracking(setting)),
            None => Err(MetadataErrorView::InvalidTracking { line_number, text, value }),
        }
    } else {
        Ok(MetaLineView::Custom(t))
    }
}

/// Looks for the keyword `kw` and its colon at the head of `cs`; gives the
/// index just behind the colon.
fn strip_keyword(cs: &Vec<char>, kw: &str) -> (r: Option<usize>)
    ensures
        match r {
            Some(j) => j <= cs@.len() && after_keyword(cs@, kw@) == Some(
                trimmed(cs@.subrange(j as int, cs@.len() as int)),
            ),
            None => after_keyword(cs@, kw@) is None,
        },
{
    let k: usize = kw.unicode_len();
    let n: usize = cs.len();
    if n < k {
        return None;
    }
    if !matches_ignore_case(cs, 0, k, kw) {
        return None;
    }
    let j: usize = skip_whitespace(cs, k);
    if j < n && cs[j] == ':' {
        proof {
            assert(cs@.subrange(j as int, n as int).drop_first() =~= cs@.subrange(
                j as int + 1,
                n as int,
            ));
        }
        Some(j + 1)
    } else {
        None
    }
}

/// Parses one declaration line.
pub fn parse_meta_line(source_line: &UnparsedLine) -> (r: Result<MetaLine, MetadataError>)
    ensures
        agrees(r, meta_line_of(source_line.line_number, source_line.text@)),
{
    let cs: Vec<char> = chars_of(source_line.text.as_str().trim());
    let n: usize = cs.len();
    assert(cs@.subrange(0, n as int) =~= cs@);
    if let Some(j) = strip_keyword(&cs, "title") {
        let name: String = trimmed_string_of(&cs, j, n);
        if name.as_str().unicode_len() > 0 {
            Ok(MetaLine::Title(name))
        } else {
            Err(
                MetadataError::MissingTitleName {
                    line_number: source_line.line_number,
                    text: source_line.text.clone(),
                },
            )
        }
    } else if let Some(j) = strip_keyword(&cs, "tags") {
        let list: Vec<char> = chars_of(trimmed_string_of(&cs, j, n).as_str());
        assert(list@.subrange(0, list@.len() as int) =~= list@);
        Ok(MetaLine::Tags(split_trimmed(&list, 0, ',')))
    } else if let Some(j) = strip_keyword(&cs, "tracking") {
        let value: Vec<char> = chars_of(trimmed_string_of(&cs, j, n).as_str());
        let m: usize = value.len();
        assert(value@.subrange(0, m as int) =~= value@);
        if matches_ignore_case(&value, 0, m, "always") {
            Ok(MetaLine::Tracking(TrackingSetting::Always))
        } else if matches_ignore_case(&value, 0, m, "never") {
            Ok(MetaLine::Tracking(TrackingSetting::Never))
        } else {
            Err(
                MetadataError::InvalidTracking {
                    line_number: source_line.line_number,
                    text: source_line.text.clone(),
                    value: string_of(&value, 0, m),
                },
            )
        }
    } else {
        Ok(MetaLine::Custom(string_of(&cs, 0, n)))
    }
}

/// What has been gathered from the lines read so far.
pub struct Gathered {
    pub title: Option<(usize, Seq<char>)>,
    pub tags: Seq<Seq<char>>,
    pub tracking: Option<(usize, TrackingSetting)>,
    pub customs: Seq<Seq<char>>,
}

/// Nothing gathered yet.
pub open spec fn nothing_gathered() -> Gathered {
    Gathered { title: None, tags: Seq::empty(), tracking: None, customs: Seq::empty() }
}

/// Adds one parsed line, found at `line_number`, to what was gathered: a title
/// and a tracking setting may be given once, tags and custom lines pile up.
pub open spec fn gather(g: Gathered, line_number: usize, line: MetaLineView) -> Result<
    Gathered,
    MetadataErrorView,
> {
    match line {
        MetaLineView::Title(name) => match g.title {
            Some((first_line, first)) => Err(
                MetadataErrorView::DuplicateTitle {
                    first_line,
                    first,
                    second_line: line_number,
                    second: name,
                },
            ),
            None => Ok(Gathered { title: Some((line_number, name)), ..g }),
        },
        MetaLineView::Tags(more) => Ok(Gathered { tags: g.tags + more, ..g }),
        MetaLineView::Tracking(setting) => match g.tracking {
            Some((first_line, first)) => Err(
                MetadataErrorView::DuplicateTracking {
                    first_line,
                    first,
                    second_line: line_number,
                    second: setting,
                },
            ),
            None => Ok(Gathered { tracking: Some((line_number, setting)), ..g }),
        },
        MetaLineView::Custom(custom) => Ok(Gathered { customs: g.customs.push(custom), ..g }),
    }
}

/// Reads the lines from index `i` on, in order, stopping at the first line
/// that is refused.
pub open spec fn gather_from(lines: Seq<UnparsedLine>, i: int, g: Gathered) -> Result<
    Gathered,
    MetadataErrorView,
>
    decreases lines.len() - i,
{
    if i < 0 || i >= lines.len() {
        Ok(g)
    } else {
        match meta_line_of(lines[i].line_number, lines[i].text@) {
            Err(e) => Err(e),
            Ok(line) => match gather(g, lines[i].line_number, line) {
                Err(e) => Err(e),
                Ok(next) => gather_from(lines, i + 1, next),
            },
        }
    }
}

/// Whether `c` may start a title: an ASCII letter or an underscore.
pub open spec fn is_title_start(c: char) -> bool {
    ('a' <= c && c <= 'z') || ('A' <= c && c <= 'Z') || c == '_'
}

/// Whether `c` may stand in a title: an ASCII letter, a digit or an underscore.
pub open spec fn is_title_char(c: char) -> bool {
    is_title_start(c) || ('0' <= c && c <= '9')
}

/// Whether `title` is a well-formed node title.
pub open spec fn valid_title(title: Seq<char>) -> bool {
    &&& title.len() > 0
    &&& is_title_start(title[0])
    &&& forall|i: int| 0 <= i < title.len() ==> is_title_char(#[trigger] title[i])
}

/// The index of the first character at or after `i` that may not stand in a
/// title; the length of `title` if there is none.
pub open spec fn first_invalid_from(title: Seq<char>, i: int) -> int
    decreases title.len() - i,
{
    if i < 0 || i >= title.len() {
        title.len() as int
    } else if !is_title_char(title[i]) {
        i
    } else {
        first_invalid_from(title, i + 1)
    }
}

/// The metadata that the gathered declarations make, once the title has been
/// checked.
pub open spec fn finish(g: Gathered) -> Result<NodeMetadataView, MetadataErrorView> {
    match g.title {
        None => Err(MetadataErrorView::MissingTitle),
        Some((line_number, title)) => {
            let bad = first_invalid_from(title, 0);
            if title.len() > 0 && !is_title_start(title[0]) {
                Err(MetadataErrorView::InvalidTitleStart { line_number, title, found: title[0] })
            } else if bad < title.len() {
                Err(
                    MetadataErrorView::InvalidTitleCharacter {
                        line_number,
                        title,
                        found: title[bad],
                    },
                )
            } else {
                Ok(
                    NodeMetadataView {
                        title,
                        tags: g.tags,
                        tracking: match g.tracking {
                            Some((_, setting)) => Some(setting),
                            None => None,
                        },
                        customs: g.customs,
                    },
                )
            }
        },
    }
}

/// What a whole declaration block means.
pub open spec fn metadata_of(lines: Seq<UnparsedLine>) -> Result<
    NodeMetadataView,
    MetadataErrorView,
> {
    match gather_from(lines, 0, nothing_gathered()) {
        Err(e) => Err(e),
        Ok(g) => finish(g),
    }
}

/// Whether `c` may start a title.
pub fn title_start(c: char) -> (r: bool)
    ensures
        r == is_title_start(c),
{
    ('a' <= c && c <= 'z') || ('A' <= c && c <= 'Z') || c == '_'
}

/// Whether `c` may stand in a title.
pub fn title_char(c: char) -> (r: bool)
    ensures
        r == is_title_char(c),
{
    title_start(c) || ('0' <= c && c <= '9')
}

/// A title without an invalid character is valid from `i` on.
pub proof fn lemma_no_invalid_from(title: Seq<char>, i: int)
    requires
        0 <= i,
        first_invalid_from(title, i) >= title.len(),
    ensures
        forall|k: int| i <= k < title.len() ==> is_title_char(#[trigger] title[k]),
    decreases title.len() - i,
{
    if i < title.len() {
        lemma_no_invalid_from(title, i + 1);
    }
}

/// The first invalid character is in range and invalid.
pub proof fn lemma_first_invalid_from(title: Seq<char>, i: int)
    requires
        0 <= i,
    ensures
        i <= first_invalid_from(title, i) || first_invalid_from(title, i) == title.len(),
        first_invalid_from(title, i) < title.len() ==> !is_title_char(
            title[first_invalid_from(title, i)],
        ),
    decreases title.len() - i,
{
    if i < title.len() && is_title_char(title[i]) {
        lemma_first_invalid_from(title, i + 1);
    }
}

/// The index of the first character that may not stand in a title; the
/// length of `name` if there is none.
pub fn first_invalid(name: &Vec<char>) -> (r: usize)
    ensures
        r == first_invalid_from(name@, 0),
        r <= name@.len(),
{
    let len: usize = name.len();
    let mut k: usize = 0;
    while k < len
        invariant
            len == name@.len(),
            k <= len,
            first_invalid_from(name@, 0) == first_invalid_from(name@, k as int),
        decreases len - k,
    {
        if !title_char(name[k]) {
            return k;
        }
        k = k + 1;
    }
    len
}

/// Parses the declaration block of a node, line by line and in order.
pub fn parse_metadata(lines: &[UnparsedLine]) -> (r: Result<NodeMetadata, MetadataError>)
    ensures
        agrees(r, metadata_of(lines@)),
        r is Ok ==> r->Ok_0.well_formed(),
{
    let mut title: Option<(usize, String)> = None;
    let mut tags: Vec<String> = Vec::new();
    let mut tracking: Option<(usize, TrackingSetting)> = None;
    let mut customs: Vec<String> = Vec::new();
    let ghost mut g: Gathered = nothing_gathered();
    proof {
        assert(texts(tags@) =~= g.tags);
        assert(texts(customs@) =~= g.customs);
    }
    let count: usize = lines.len();
    let mut i: usize = 0;
    while i < count
        invariant
            count == lines@.len(),
            i <= count,
            gather_from(lines@, 0, nothing_gathered()) == gather_from(lines@, i as int, g),
            match title {
                Some((number, name)) => g.title == Some((number, name@)) && name@.len() > 0,
                None => g.title is None,
            },
            g.tracking == tracking,
            g.tags == texts(tags@),
            g.customs == texts(customs@),
        decreases count - i,
    {
        let line_number: usize = lines[i].line_number;
        let meta_line: MetaLine = match parse_meta_line(&lines[i]) {
            Ok(meta_line) => meta_line,
            Err(e) => {
                return Err(e);
            },
        };
        match meta_line {
            MetaLine::Title(title_to_set) => {
                match title {
                    Some((old_number, old_title)) => {
                        return Err(
                            MetadataError::DuplicateTitle {
                                first_line: old_number,
                                first: old_title,
                                second_line: line_number,
                                second: title_to_set,
                            },
                        );
                    },
                    None => {
                        proof {
                            g = Gathered { title: Some((line_number, title_to_set@)), ..g };
                        }
                        title = Some((line_number, title_to_set));
                    },
                }
            },
            MetaLine::Tags(tags_to_add) => {
                let mut tags_to_add = tags_to_add;
                proof {
                    g = Gathered { tags: g.tags + texts(tags_to_add@), ..g };
                }
                tags.append(&mut tags_to_add);
                assert(texts(tags@) =~= g.tags);
            },
            MetaLine::Tracking(tracking_to_set) => {
                match tracking {
                    Some((old_number, old_tracking)) => {
                        return Err(
                            MetadataError::DuplicateTracking {
                                first_line: old_number,
                                first: old_tracking,
                                second_line: line_number,
                                second: tracking_to_set,
                            },
                        );
                    },
                    None => {
                        proof {
                            g = Gathered { tracking: Some((line_number, tracking_to_set)), ..g };
                        }
                        tracking = Some((line_number, tracking_to_set));
                    },
                }
            },
            MetaLine::Custom(custom) => {
                proof {
                    g = Gathered { customs: g.customs.push(custom@), ..g };
                }
                customs.push(custom);
                assert(texts(customs@) =~= g.customs);
            },
        }
        i = i + 1;
    }
    let (title_number, title_name) = match title {
        Some(found) => found,
        None => {
            return Err(MetadataError::MissingTitle);
        },
    };
    let name: Vec<char> = chars_of(title_name.as_str());
    let first_char: char = name[0];
    if !title_start(first_char) {
        return Err(
            MetadataError::InvalidTitleStart {
                line_number: title_number,
                title: title_name,
                found: first_char,
            },
        );
    }
    let bad: usize = first_invalid(&name);
    if bad < name.len() {
        return Err(
            MetadataError::InvalidTitleCharacter {
                line_number: title_number,
                title: title_name,
                found: name[bad],
            },
        );
    }
    proof {
        lemma_no_invalid_from(name@, 0);
    }
    Ok(
        NodeMetadata {
            title: title_name,
            tags,
            tracking: match tracking {
                Some((_, setting)) => Some(setting),
                None => None,
            },
            customs,
        },
    )
}

/// Whether a line declares a title: `title`, in any case, and a colon head
/// its trimmed text.
pub open spec fn is_title_line(text: Seq<char>) -> bool {
    after_keyword(trimmed(text), "title"@) is Some
}

/// A line that parses means the same with whitespace added around it.
pub proof fn lemma_line_ignores_surrounding_whitespace(
    line_number: usize,
    before: Seq<char>,
    text: Seq<char>,
    after: Seq<char>,
)
    requires
        all_whitespace(before),
        all_whitespace(after),
        meta_line_of(line_number, text) is Ok,
    ensures
        meta_line_of(line_number, before + text + after) == meta_line_of(line_number, text),
{
    lemma_trimmed_skips_surroundings(before, text, after);
}

/// The case of a keyword does not matter: two trimmed lines that differ
/// only in the case of their first letters, as many as the keyword has,
/// give the same value for that keyword.
pub proof fn lemma_keyword_case_does_not_matter(a: Seq<char>, b: Seq<char>, kw: Seq<char>)
    requires
        a.len() == b.len(),
        kw.len() <= a.len(),
        eq_ignore_case(a.subrange(0, kw.len() as int), b.subrange(0, kw.len() as int)),
        a.subrange(kw.len() as int, a.len() as int) == b.subrange(
            kw.len() as int,
            b.len() as int,
        ),
    ensures
        after_keyword(a, kw) == after_keyword(b, kw),
{
    lemma_eq_ignore_case_chain(
        a.subrange(0, kw.len() as int),
        b.subrange(0, kw.len() as int),
        kw,
    );
}

/// The case of a tracking value does not matter.
pub proof fn lemma_tracking_case_does_not_matter(a: Seq<char>, b: Seq<char>)
    requires
        eq_ignore_case(a, b),
    ensures
        tracking_of(a) == tracking_of(b),
{
    lemma_eq_ignore_case_chain(a, b, "always"@);
    lemma_eq_ignore_case_chain(a, b, "never"@);
}

/// Two blocks whose lines have the same numbers and, trimmed, the same
/// texts: if the first parses, the second gives the same from any line on.
pub proof fn lemma_gather_ignores_surrounding_whitespace(
    a: Seq<UnparsedLine>,
    b: Seq<UnparsedLine>,
    i: int,
    g: Gathered,
)
    requires
        a.len() == b.len(),
        forall|k: int|
            0 <= k < a.len() ==> (#[trigger] a[k]).line_number == b[k].line_number && trimmed(
                a[k].text@,
            ) == trimmed(b[k].text@),
        0 <= i,
        gather_from(a, i, g) is Ok,
    ensures
        gather_from(b, i, g) == gather_from(a, i, g),
    decreases a.len() - i,
{
    if i < a.len() {
        assert(a[i].line_number == b[i].line_number);
        let line = meta_line_of(a[i].line_number, a[i].text@);
        assert(meta_line_of(b[i].line_number, b[i].text@) == line);
        let next = gather(g, a[i].line_number, line->Ok_0);
        lemma_gather_ignores_surrounding_whitespace(a, b, i + 1, next->Ok_0);
    }
}

/// Whitespace at the ends of the lines of a well-formed block does not
/// change the metadata: two blocks whose lines have the same numbers and,
/// trimmed, the same texts, give the same metadata if the first parses.
pub proof fn lemma_block_ignores_surrounding_whitespace(
    a: Seq<UnparsedLine>,
    b: Seq<UnparsedLine>,
)
    requires
        a.len() == b.len(),
        forall|k: int|
            0 <= k < a.len() ==> (#[trigger] a[k]).line_number == b[k].line_number && trimmed(
                a[k].text@,
            ) == trimmed(b[k].text@),
        metadata_of(a) is Ok,
    ensures
        metadata_of(b) == metadata_of(a),
{
    lemma_gather_ignores_surrounding_whitespace(a, b, 0, nothing_gathered());
}

/// Once a title has been gathered, a later title line refuses the block.
pub proof fn lemma_title_after_title(lines: Seq<UnparsedLine>, k: int, g: Gathered, j: int)
    requires
        0 <= k <= j < lines.len(),
        g.title is Some,
        is_title_line(lines[j].text@),
    ensures
        gather_from(lines, k, g) is Err,
    decreases j - k,
{
    let line = meta_line_of(lines[k].line_number, lines[k].text@);
    if k < j && line is Ok {
        let next = gather(g, lines[k].line_number, line->Ok_0);
        if next is Ok {
            lemma_title_after_title(lines, k + 1, next->Ok_0, j);
        }
    }
}

/// Two title lines refuse the block, from any line before them on.
pub proof fn lemma_two_titles_from(lines: Seq<UnparsedLine>, k: int, g: Gathered, i: int, j: int)
    requires
        0 <= k <= i < j < lines.len(),
        is_title_line(lines[i].text@),
        is_title_line(lines[j].text@),
    ensures
        gather_from(lines, k, g) is Err,
    decreases i - k,
{
    let line = meta_line_of(lines[k].line_number, lines[k].text@);
    if line is Ok {
        let next = gather(g, lines[k].line_number, line->Ok_0);
        if next is Ok {
            if k < i {
                lemma_two_titles_from(lines, k + 1, next->Ok_0, i, j);
            } else {
                lemma_title_after_title(lines, k + 1, next->Ok_0, j);
            }
        }
    }
}

/// A block with two title lines is refused, whatever the titles are.
pub proof fn lemma_two_titles_refused(lines: Seq<UnparsedLine>, i: int, j: int)
    requires
        0 <= i < j < lines.len(),
        is_title_line(lines[i].text@),
        is_title_line(lines[j].text@),
    ensures
        metadata_of(lines) is Err,
{
    lemma_two_titles_from(lines, 0, nothing_gathered(), i, j);
}

/// The tags that the lines from index `i` on declare, in order.
pub open spec fn tags_from(lines: Seq<UnparsedLine>, i: int) -> Seq<Seq<char>>
    decreases lines.len() - i,
{
    if i < 0 || i >= lines.len() {
        Seq::empty()
    } else {
        match meta_line_of(lines[i].line_number, lines[i].text@) {
            Ok(MetaLineView::Tags(tags)) => tags + tags_from(lines, i + 1),
            _ => tags_from(lines, i + 1),
        }
    }
}

/// The custom lines from index `i` on, trimmed, in order.
pub open spec fn customs_from(lines: Seq<UnparsedLine>, i: int) -> Seq<Seq<char>>
    decreases lines.len() - i,
{
    if i < 0 || i >= lines.len() {
        Seq::empty()
    } else {
        match meta_line_of(lines[i].line_number, lines[i].text@) {
            Ok(MetaLineView::Custom(custom)) => seq![custom] + customs_from(lines, i + 1),
            _ => customs_from(lines, i + 1),
        }
    }
}

/// Tags and custom lines pile up in the order of the lines.
pub proof fn lemma_gather_piles_up(lines: Seq<UnparsedLine>, i: int, g: Gathered)
    requires
        0 <= i,
        gather_from(lines, i, g) is Ok,
    ensures
        gather_from(lines, i, g)->Ok_0.tags == g.tags + tags_from(lines, i),
        gather_from(lines, i, g)->Ok_0.customs == g.customs + customs_from(lines, i),
    decreases lines.len() - i,
{
    if i < lines.len() {
        let line = meta_line_of(lines[i].line_number, lines[i].text@)->Ok_0;
        let next = gather(g, lines[i].line_number, line)->Ok_0;
        lemma_gather_piles_up(lines, i + 1, next);
        assert(next.tags + tags_from(lines, i + 1) =~= g.tags + tags_from(lines, i));
        assert(next.customs + customs_from(lines, i + 1) =~= g.customs + customs_from(lines, i));
    } else {
        assert(g.tags + tags_from(lines, i) =~= g.tags);
        assert(g.customs + customs_from(lines, i) =~= g.customs);
    }
}

/// The metadata of a block holds the tags of all its `tags` lines and all
/// its custom lines, in the order of the lines.
pub proof fn lemma_metadata_piles_up(lines: Seq<UnparsedLine>)
    requires
        metadata_of(lines) is Ok,
    ensures
        metadata_of(lines)->Ok_0.tags == tags_from(lines, 0),
        metadata_of(lines)->Ok_0.customs == customs_from(lines, 0),
{
    lemma_gather_piles_up(lines, 0, nothing_gathered());
    assert(nothing_gathered().tags + tags_from(lines, 0) =~= tags_from(lines, 0));
    assert(nothing_gathered().customs + customs_from(lines, 0) =~= customs_from(lines, 0));
}

/// Whether a line declares a tracking setting.
pub open spec fn is_tracking_line(line: UnparsedLine) -> bool {
    meta_line_of(line.line_number, line.text@) matches Ok(MetaLineView::Tracking(_))
}

/// Once a tracking setting has been gathered, a later tracking line
/// refuses the block.
pub proof fn lemma_tracking_after_tracking(lines: Seq<UnparsedLine>, k: int, g: Gathered, j: int)
    requires
        0 <= k <= j < lines.len(),
        g.tracking is Some,
        is_tracking_line(lines[j]),
    ensures
        gather_from(lines, k, g) is Err,
    decreases j - k,
{
    let line = meta_line_of(lines[k].line_number, lines[k].text@);
    if k < j && line is Ok {
        let next = gather(g, lines[k].line_number, line->Ok_0);
        if next is Ok {
            lemma_tracking_after_tracking(lines, k + 1, next->Ok_0, j);
        }
    }
}

/// Two tracking lines refuse the block, from any line before them on.
pub proof fn lemma_two_trackings_from(
    lines: Seq<UnparsedLine>,
    k: int,
    g: Gathered,
    i: int,
    j: int,
)
    requires
        0 <= k <= i < j < lines.len(),
        is_tracking_line(lines[i]),
        is_tracking_line(lines[j]),
    ensures
        gather_from(lines, k, g) is Err,
    decreases i - k,
{
    let line = meta_line_of(lines[k].line_number, lines[k].text@);
    if line is Ok {
        let next = gather(g, lines[k].line_number, line->Ok_0);
        if next is Ok {
            if k < i {
                lemma_two_trackings_from(lines, k + 1, next->Ok_0, i, j);
            } else {
                lemma_tracking_after_tracking(lines, k + 1, next->Ok_0, j);
            }
        }
    }
}

/// A block with two tracking lines is refused, whatever the settings are.
pub proof fn lemma_two_trackings_refused(lines: Seq<UnparsedLine>, i: int, j: int)
    requires
        0 <= i < j < lines.len(),
        is_tracking_line(lines[i]),
        is_tracking_line(lines[j]),
    ensures
        metadata_of(lines) is Err,
{
    lemma_two_trackings_from(lines, 0, nothing_gathered(), i, j);
}

/// The gathered declarations make metadata exactly when they hold a title
/// that is well formed: it starts with an ASCII letter or an underscore and
/// holds only ASCII letters, digits and underscores.
pub proof fn lemma_finish_checks_title(g: Gathered)
    requires
        g.title is Some ==> g.title->Some_0.1.len() > 0,
    ensures
        finish(g) is Ok <==> g.title is Some && valid_title(g.title->Some_0.1),
        finish(g) is Ok ==> finish(g)->Ok_0.title == g.title->Some_0.1,
{
    if g.title is Some {
        let title = g.title->Some_0.1;
        lemma_first_invalid_from(title, 0);
        if first_invalid_from(title, 0) >= title.len() {
            lemma_no_invalid_from(title, 0);
        }
    }
}

} // verus!
