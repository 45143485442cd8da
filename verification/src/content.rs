//! Content units: a document, its front matter, and how a source text is
//! split into the two.

use vstd::prelude::*;
use crate::paths::path_extension;
use crate::text::{
    chars_of, clone_opt, clone_strings, eq_ignore_ascii_case, first_where, lemma_first_where,
    lemma_first_where_found, opt_view, other_than, same_ignoring_ascii_case, string_of,
    strip_leading, trim, trim_bounds, views,
};

verus! {

/// The metadata that a page may declare in its front matter.
#[derive(Debug, PartialEq)]
pub struct PageMeta {
    pub title: Option<String>,
    pub date: Option<String>,
    pub draft: bool,
    pub tags: Vec<String>,
    pub template: Option<String>,
    pub slug: Option<String>,
}

impl Default for PageMeta {
    fn default() -> (m: PageMeta)
        ensures
            m.title is None,
            m.date is None,
            !m.draft,
            m.tags@.len() == 0,
            m.template is None,
            m.slug is None,
    {
        PageMeta {
            title: None,
            date: None,
            draft: false,
            tags: Vec::new(),
            template: None,
            slug: None,
        }
    }
}

impl Clone for PageMeta {
    fn clone(&self) -> (copy: PageMeta)
        ensures
            opt_view(copy.title) == opt_view(self.title),
            opt_view(copy.date) == opt_view(self.date),
            copy.draft == self.draft,
            views(copy.tags@) == views(self.tags@),
            opt_view(copy.template) == opt_view(self.template),
            opt_view(copy.slug) == opt_view(self.slug),
    {
        PageMeta {
            title: clone_opt(&self.title),
            date: clone_opt(&self.date),
            draft: self.draft,
            tags: clone_strings(&self.tags),
            template: clone_opt(&self.template),
            slug: clone_opt(&self.slug),
        }
    }
}

/// One source document: where it was read from, its front matter where it has
/// one, and its body.
#[derive(Debug, PartialEq)]
pub struct Document<M> {
    pub path: String,
    pub front_matter: Option<M>,
    pub body: String,
}

impl<M: Clone> Clone for Document<M> {
    fn clone(&self) -> (copy: Document<M>)
        ensures
            copy.path@ == self.path@,
            copy.body@ == self.body@,
            copy.front_matter is Some == self.front_matter is Some,
    {
        Document {
            path: self.path.clone(),
            front_matter: match &self.front_matter {
                Some(meta) => Some(meta.clone()),
                None => None,
            },
            body: self.body.clone(),
        }
    }
}

/// The language a front matter block is written in.
#[derive(Debug, Clone, Copy, PartialEq, Eq, Structural)]
pub enum FrontMatterFormat {
    /// Fenced by `---`.
    Yaml,
    /// Fenced by `+++`.
    Toml,
}

/// A front matter block that is opened and never closed.
#[derive(Debug, Clone, Copy, PartialEq, Eq, Structural)]
pub enum FrontMatterError {
    UnclosedYaml,
    UnclosedToml,
}

impl FrontMatterError {
    /// The error in words.
    pub fn message(&self) -> (text: String)
        ensures
            text@ == (match self {
                FrontMatterError::UnclosedYaml => "Unclosed YAML front matter (---)"@,
                FrontMatterError::UnclosedToml => "Unclosed TOML front matter (+++)"@,
            }),
    {
        match self {
            FrontMatterError::UnclosedYaml => "Unclosed YAML front matter (---)".to_owned(),
            FrontMatterError::UnclosedToml => "Unclosed TOML front matter (+++)".to_owned(),
        }
    }
}

/// The byte order mark.
pub open spec fn bom() -> char {
    '\u{FEFF}'
}

/// `s` with every line ending made a line feed: a carriage return with its
/// line feed, and a carriage return alone.
pub open spec fn normalize_newlines(s: Seq<char>) -> Seq<char>
    decreases s.len(),
{
    if s.len() == 0 {
        s
    } else if s[0] == '\r' {
        if s.len() > 1 && s[1] == '\n' {
            seq!['\n'] + normalize_newlines(s.skip(2))
        } else {
            seq!['\n'] + normalize_newlines(s.skip(1))
        }
    } else {
        seq![s[0]] + normalize_newlines(s.skip(1))
    }
}

/// The text that is split: the source without leading byte order marks, its
/// line endings normalized.
pub open spec fn prepared(text: Seq<char>) -> Seq<char> {
    normalize_newlines(strip_leading(text, bom()))
}

/// Normalizing leaves no carriage return, and changes nothing in a text that
/// has none.
pub proof fn lemma_normalized(s: Seq<char>)
    ensures
        !normalize_newlines(s).contains('\r'),
        !s.contains('\r') ==> normalize_newlines(s) == s,
    decreases s.len(),
{
    let out = normalize_newlines(s);
    if s.len() == 0 {
    } else {
        let rest = if s[0] == '\r' && s.len() > 1 && s[1] == '\n' {
            s.skip(2)
        } else {
            s.skip(1)
        };
        lemma_normalized(rest);
        let tail = normalize_newlines(rest);
        assert forall|i: int| 0 <= i < out.len() implies out[i] != '\r' by {
            if i > 0 {
                assert(out[i] == tail[i - 1]);
                assert(!tail.contains('\r'));
            }
        }
        if !s.contains('\r') {
            assert(s[0] != '\r');
            assert forall|i: int| 0 <= i < rest.len() implies rest[i] != '\r' by {
                assert(rest[i] == s[i + 1]);
            }
            assert(out =~= s);
        }
    }
}

/// The text that is split holds no carriage return.
pub proof fn law_prepared_has_no_carriage_return(text: Seq<char>)
    ensures
        !prepared(text).contains('\r'),
{
    lemma_normalized(strip_leading(text, bom()));
}

/// The line feed.
pub open spec fn is_line_feed() -> spec_fn(char) -> bool {
    |c: char| c == '\n'
}

/// The lines of `s`: the pieces between line feeds, without them. A line feed
/// at the very end ends the last line and opens no further one.
pub open spec fn lines(s: Seq<char>) -> Seq<Seq<char>>
    decreases s.len(),
{
    if s.len() == 0 {
        Seq::empty()
    } else {
        let n = first_where(s, is_line_feed());
        if 0 <= n < s.len() {
            seq![s.take(n)] + lines(s.skip(n + 1))
        } else {
            seq![s]
        }
    }
}

/// The lines `ls`, each closed by a line feed, as one text.
pub open spec fn join_lines(ls: Seq<Seq<char>>) -> Seq<char>
    decreases ls.len(),
{
    if ls.len() == 0 {
        Seq::empty()
    } else {
        join_lines(ls.drop_last()) + ls.last() + seq!['\n']
    }
}

/// A line of whitespace alone.
pub open spec fn is_blank(line: Seq<char>) -> bool {
    trim(line).len() == 0
}

/// The lines that are not blank.
pub open spec fn not_blank() -> spec_fn(Seq<char>) -> bool {
    |line: Seq<char>| !is_blank(line)
}

/// The lines that close a block of the given format: its fence, with
/// whitespace around it at most.
pub open spec fn closes(format: FrontMatterFormat) -> spec_fn(Seq<char>) -> bool {
    |line: Seq<char>| trim(line) == fence_of(format)
}

/// The fence of a YAML block.
pub open spec fn yaml_fence() -> Seq<char> {
    seq!['-', '-', '-']
}

/// The fence of a TOML block.
pub open spec fn toml_fence() -> Seq<char> {
    seq!['+', '+', '+']
}

/// The fence that opens and closes a block of the given format.
pub open spec fn fence_of(format: FrontMatterFormat) -> Seq<char> {
    match format {
        FrontMatterFormat::Yaml => yaml_fence(),
        FrontMatterFormat::Toml => toml_fence(),
    }
}

/// The format that a line opens, if it is a fence.
pub open spec fn opened_by(line: Seq<char>) -> Option<FrontMatterFormat> {
    if trim(line) == yaml_fence() {
        Some(FrontMatterFormat::Yaml)
    } else if trim(line) == toml_fence() {
        Some(FrontMatterFormat::Toml)
    } else {
        None
    }
}

/// The error for a block of the given format that is not closed.
pub open spec fn unclosed(format: FrontMatterFormat) -> FrontMatterError {
    match format {
        FrontMatterFormat::Yaml => FrontMatterError::UnclosedYaml,
        FrontMatterFormat::Toml => FrontMatterError::UnclosedToml,
    }
}

/// The line on which a front matter block may open: the first line that is
/// not blank, or the first line where all are blank.
pub open spec fn opening_line(ls: Seq<Seq<char>>) -> int {
    let k = first_where(ls, not_blank());
    if k < ls.len() {
        k
    } else {
        0
    }
}

/// A source text split in two.
pub struct Split {
    /// The front matter block, without its fences, and its format.
    pub front: Option<(FrontMatterFormat, Seq<char>)>,
    /// What is left as the body.
    pub body: Seq<char>,
}

/// How a source text is split.
///
/// The text is prepared (see [`prepared`]). Where its first line that is not
/// blank is a fence, `---` or `+++` with whitespace around it at most, the
/// lines up to the next such fence are the front matter and the lines after
/// it the body, each line closed by a line feed. Where that fence never
/// comes, the text is refused. Where the text opens with no fence, it has no
/// front matter, and all of it, as prepared, is the body.
pub open spec fn split(text: Seq<char>) -> Result<Split, FrontMatterError> {
    let s = prepared(text);
    let ls = lines(s);
    if ls.len() == 0 {
        Ok(Split { front: None, body: s })
    } else {
        match opened_by(ls[opening_line(ls)]) {
            None => Ok(Split { front: None, body: s }),
            Some(format) => {
                let rest = ls.skip(opening_line(ls) + 1);
                let close = first_where(rest, closes(format));
                if close < rest.len() {
                    Ok(
                        Split {
                            front: Some((format, join_lines(rest.take(close)))),
                            body: join_lines(rest.skip(close + 1)),
                        },
                    )
                } else {
                    Err(unclosed(format))
                }
            },
        }
    }
}

/// No line holds a line feed.
pub proof fn lemma_lines_have_no_line_feed(s: Seq<char>)
    ensures
        forall|i: int| 0 <= i < lines(s).len() ==> !(#[trigger] lines(s)[i]).contains('\n'),
    decreases s.len(),
{
    if s.len() > 0 {
        let n = first_where(s, is_line_feed());
        lemma_first_where_found(s, is_line_feed());
        let head = if n < s.len() {
            s.take(n)
        } else {
            s
        };
        assert(!head.contains('\n')) by {
            assert forall|j: int| 0 <= j < head.len() implies head[j] != '\n' by {
                assert(!is_line_feed()(s[j]));
            }
        }
        if n < s.len() {
            let rest = s.skip(n + 1);
            lemma_lines_have_no_line_feed(rest);
            assert forall|i: int| 0 <= i < lines(s).len() implies !(#[trigger] lines(s)[i]).contains(
                '\n',
            ) by {
                if i > 0 {
                    assert(lines(s)[i] == lines(rest)[i - 1]);
                }
            }
        }
    }
}

proof fn lemma_lines_append(a: Seq<char>, b: Seq<char>)
    requires
        a.len() == 0 || a.last() == '\n',
    ensures
        lines(a + b) == lines(a) + lines(b),
    decreases a.len(),
{
    if a.len() == 0 {
        assert(a + b =~= b);
        assert(lines(a) + lines(b) =~= lines(b));
    } else {
        let whole = a + b;
        let n = first_where(a, is_line_feed());
        lemma_first_where_found(a, is_line_feed());
        assert(n < a.len()) by {
            if n >= a.len() {
                assert(!is_line_feed()(a[a.len() - 1]));
            }
        }
        assert forall|i: int| 0 <= i < n implies !is_line_feed()(#[trigger] whole[i]) by {
            assert(whole[i] == a[i]);
        }
        assert(whole[n] == a[n]);
        lemma_first_where(whole, is_line_feed(), n);
        let rest = a.skip(n + 1);
        assert(whole.take(n) =~= a.take(n));
        assert(whole.skip(n + 1) =~= rest + b);
        if rest.len() > 0 {
            assert(rest.last() == a.last());
        }
        lemma_lines_append(rest, b);
        assert(lines(whole) =~= lines(a) + lines(b));
    }
}

/// The lines of lines put together are those lines, as long as none of them
/// holds a line feed.
pub proof fn lemma_lines_of_joined(ls: Seq<Seq<char>>)
    requires
        forall|i: int| 0 <= i < ls.len() ==> !(#[trigger] ls[i]).contains('\n'),
    ensures
        lines(join_lines(ls)) == ls,
        join_lines(ls).len() == 0 || join_lines(ls).last() == '\n',
    decreases ls.len(),
{
    if ls.len() > 0 {
        let init = ls.drop_last();
        let last = ls.last();
        lemma_lines_of_joined(init);
        let a = join_lines(init);
        let b = last + seq!['\n'];
        assert(join_lines(ls) =~= a + b);
        lemma_lines_append(a, b);
        assert(lines(b) =~= seq![last]) by {
            assert forall|i: int| 0 <= i < last.len() implies !is_line_feed()(#[trigger] b[i]) by {
                assert(b[i] == last[i]);
                assert(last.contains(last[i]));
            }
            assert(b[last.len() as int] == '\n');
            lemma_first_where(b, is_line_feed(), last.len() as int);
            assert(b.take(last.len() as int) =~= last);
            let tail = b.skip(last.len() as int + 1);
            assert(tail =~= Seq::<char>::empty());
            assert(lines(tail) =~= Seq::<Seq<char>>::empty());
            assert(first_where(b, is_line_feed()) == last.len());
            assert(lines(b) == seq![b.take(last.len() as int)] + lines(tail));
        }
        assert(init.push(last) =~= ls);
        assert(lines(join_lines(ls)) =~= ls);
    }
}

/// Nothing is lost. Where a text has front matter, the lines after the
/// opening fence are the lines of the front matter, the closing fence, and
/// the lines of the body, in this order. Where it has none, the body is the
/// prepared text.
pub proof fn law_split_keeps_every_line(text: Seq<char>)
    ensures
        match split(text) {
            Ok(Split { front: Some((format, block)), body }) => {
                let ls = lines(prepared(text));
                let rest = ls.skip(opening_line(ls) + 1);
                let close = lines(block).len() as int;
                &&& opened_by(ls[opening_line(ls)]) == Some(format)
                &&& close < rest.len()
                &&& trim(rest[close]) == fence_of(format)
                &&& rest == lines(block).push(rest[close]) + lines(body)
            },
            Ok(Split { front: None, body }) => body == prepared(text),
            Err(_) => true,
        },
{
    let s = prepared(text);
    let ls = lines(s);
    lemma_lines_have_no_line_feed(s);
    if ls.len() > 0 {
        lemma_first_where_found(ls, not_blank());
        match opened_by(ls[opening_line(ls)]) {
            None => {},
            Some(format) => {
                let k = opening_line(ls);
                let rest = ls.skip(k + 1);
                let close = first_where(rest, closes(format));
                lemma_first_where_found(rest, closes(format));
                if close < rest.len() {
                    let before = rest.take(close);
                    let after = rest.skip(close + 1);
                    assert forall|i: int| 0 <= i < before.len() implies !(#[trigger] before[i]).contains(
                        '\n',
                    ) by {
                        assert(before[i] == ls[k + 1 + i]);
                    }
                    assert forall|i: int| 0 <= i < after.len() implies !(#[trigger] after[i]).contains(
                        '\n',
                    ) by {
                        assert(after[i] == ls[k + 1 + close + 1 + i]);
                    }
                    lemma_lines_of_joined(before);
                    lemma_lines_of_joined(after);
                    assert(closes(format)(rest[close]));
                    assert(rest =~= before.push(rest[close]) + after);
                }
            },
        }
    }
}

/// The views of a list of lines.
pub open spec fn line_views(ls: Seq<Vec<char>>) -> Seq<Seq<char>> {
    Seq::new(ls.len(), |i: int| ls[i]@)
}

fn normalized(src: &Vec<char>, from: usize) -> (out: Vec<char>)
    requires
        from <= src.len(),
    ensures
        out@ == normalize_newlines(src@.skip(from as int)),
{
    let mut out: Vec<char> = Vec::new();
    let mut i: usize = from;
    let ghost whole = normalize_newlines(src@.skip(from as int));
    while i < src.len()
        invariant
            from <= i <= src.len(),
            whole == out@ + normalize_newlines(src@.skip(i as int)),
        decreases src.len() - i,
    {
        let ghost here = src@.skip(i as int);
        let ghost before = out@;
        assert(here[0] == src@[i as int]);
        assert(here.skip(1) == src@.skip(i + 1));
        if src[i] == '\r' {
            out.push('\n');
            if i + 1 < src.len() && src[i + 1] == '\n' {
                assert(here[1] == src@[i + 1]);
                assert(here.skip(2) == src@.skip(i + 2));
                assert(whole == before + (seq!['\n'] + normalize_newlines(here.skip(2))));
                i += 2;
            } else {
                assert(whole == before + (seq!['\n'] + normalize_newlines(here.skip(1))));
                i += 1;
            }
            assert(whole =~= out@ + normalize_newlines(src@.skip(i as int)));
        } else {
            out.push(src[i]);
            assert(whole == before + (seq![here[0]] + normalize_newlines(here.skip(1))));
            i += 1;
            assert(whole =~= out@ + normalize_newlines(src@.skip(i as int)));
        }
    }
    assert(out@ =~= whole);
    out
}

fn split_lines(s: &Vec<char>) -> (out: Vec<Vec<char>>)
    ensures
        line_views(out@) == lines(s@),
{
    let mut out: Vec<Vec<char>> = Vec::new();
    let mut pos: usize = 0;
    assert(s@.skip(0) == s@);
    while pos < s.len()
        invariant
            pos <= s.len(),
            lines(s@) == line_views(out@) + lines(s@.skip(pos as int)),
        decreases s.len() - pos,
    {
        let ghost here = s@.skip(pos as int);
        let ghost before = line_views(out@);
        let mut end: usize = pos;
        let mut line: Vec<char> = Vec::new();
        while end < s.len() && s[end] != '\n'
            invariant
                pos <= end <= s.len(),
                here == s@.skip(pos as int),
                line@ == here.take(end - pos),
                forall|i: int| 0 <= i < end - pos ==> #[trigger] here[i] != '\n',
            decreases s.len() - end,
        {
            line.push(s[end]);
            assert(here.take(end + 1 - pos) == here.take(end - pos).push(here[end - pos]));
            end += 1;
        }
        proof {
            lemma_first_where(here, is_line_feed(), end - pos);
        }
        out.push(line);
        if end < s.len() {
            assert(here.skip(end - pos + 1) == s@.skip(end + 1));
            assert(line_views(out@) =~= before + seq![here.take(end - pos)]);
            pos = end + 1;
        } else {
            assert(here.take(end - pos) == here);
            assert(line_views(out@) =~= before + seq![here]);
            assert(lines(s@.skip(s.len() as int)) =~= Seq::empty());
            pos = end;
        }
    }
    assert(lines(s@.skip(pos as int)) =~= Seq::empty());
    assert(line_views(out@) =~= lines(s@));
    out
}

fn line_is(line: &Vec<char>, c: char) -> (r: bool)
    ensures
        r == (trim(line@) == seq![c, c, c]),
{
    let (from, to) = trim_bounds(line);
    let r = to - from == 3 && line[from] == c && line[from + 1] == c && line[from + 2] == c;
    proof {
        let t = line@.subrange(from as int, to as int);
        let f = seq![c, c, c];
        if r {
            assert(t =~= f);
        } else if to - from == 3 {
            assert(t[0] == line@[from as int] && t[1] == line@[from + 1] && t[2] == line@[from + 2]);
            assert(f[0] == c && f[1] == c && f[2] == c);
        } else {
            assert(t.len() != f.len());
        }
    }
    r
}

fn fence_char(format: FrontMatterFormat) -> (c: char)
    ensures
        fence_of(format) == seq![c, c, c],
{
    match format {
        FrontMatterFormat::Yaml => '-',
        FrontMatterFormat::Toml => '+',
    }
}

fn joined(ls: &Vec<Vec<char>>, from: usize, to: usize) -> (out: String)
    requires
        from <= to <= ls.len(),
    ensures
        out@ == join_lines(line_views(ls@).subrange(from as int, to as int)),
{
    let ghost lv = line_views(ls@);
    let mut buf: Vec<char> = Vec::new();
    let mut i: usize = from;
    assert(lv.subrange(from as int, from as int) =~= Seq::empty());
    while i < to
        invariant
            from <= i <= to <= ls.len(),
            lv == line_views(ls@),
            buf@ == join_lines(lv.subrange(from as int, i as int)),
        decreases to - i,
    {
        let line = &ls[i];
        let ghost before = buf@;
        let mut j: usize = 0;
        while j < line.len()
            invariant
                j <= line.len(),
                buf@ == before + line@.take(j as int),
            decreases line.len() - j,
        {
            buf.push(line[j]);
            assert(line@.take(j + 1) == line@.take(j as int).push(line@[j as int]));
            j += 1;
        }
        assert(line@.take(line.len() as int) == line@);
        buf.push('\n');
        proof {
            let next = lv.subrange(from as int, i + 1);
            assert(next.drop_last() =~= lv.subrange(from as int, i as int));
            assert(next.last() == line@);
            assert(buf@ =~= before + line@ + seq!['\n']);
        }
        i += 1;
    }
    string_of(&buf)
}

/// The parts of a split source text.
pub open spec fn split_view(r: (Option<(FrontMatterFormat, String)>, String)) -> Split {
    Split {
        front: match r.0 {
            Some((format, block)) => Some((format, block@)),
            None => None,
        },
        body: r.1@,
    }
}

/// Splits a source text into its front matter and its body; see [`split`].
pub fn split_front_matter(text: &str) -> (r: Result<
    (Option<(FrontMatterFormat, String)>, String),
    FrontMatterError,
>)
    ensures
        match r {
            Ok(parts) => split(text@) == Ok::<Split, FrontMatterError>(split_view(parts)),
            Err(e) => split(text@) == Err::<Split, FrontMatterError>(e),
        },
{
    let src = chars_of(text);
    let mut start: usize = 0;
    while start < src.len() && src[start] == '\u{FEFF}'
        invariant
            start <= src.len(),
            forall|i: int| 0 <= i < start ==> #[trigger] src@[i] == bom(),
        decreases src.len() - start,
    {
        start += 1;
    }
    proof {
        lemma_first_where(src@, other_than(bom()), start as int);
    }
    let s = normalized(&src, start);
    let ls = split_lines(&s);
    let ghost lv = line_views(ls@);
    if ls.len() == 0 {
        return Ok((None, string_of(&s)));
    }
    let mut k: usize = 0;
    while k < ls.len() && is_blank_line(&ls[k])
        invariant
            k <= ls.len(),
            lv == line_views(ls@),
            forall|i: int| 0 <= i < k ==> is_blank(#[trigger] lv[i]),
        decreases ls.len() - k,
    {
        k += 1;
    }
    proof {
        lemma_first_where(lv, not_blank(), k as int);
    }
    if k == ls.len() {
        k = 0;
    }
    assert(k == opening_line(lv));
    let format = if line_is(&ls[k], '-') {
        FrontMatterFormat::Yaml
    } else if line_is(&ls[k], '+') {
        FrontMatterFormat::Toml
    } else {
        return Ok((None, string_of(&s)));
    };
    assert(opened_by(lv[k as int]) == Some(format));
    let c = fence_char(format);
    let first: usize = k + 1;
    let ghost rest = lv.skip(first as int);
    let mut close: usize = first;
    while close < ls.len() && !line_is(&ls[close], c)
        invariant
            first <= close <= ls.len(),
            lv == line_views(ls@),
            rest == lv.skip(first as int),
            fence_of(format) == seq![c, c, c],
            forall|i: int| 0 <= i < close - first ==> trim(#[trigger] rest[i]) != fence_of(format),
        decreases ls.len() - close,
    {
        close += 1;
    }
    proof {
        lemma_first_where(rest, closes(format), close - first);
    }
    if close == ls.len() {
        return Err(
            match format {
                FrontMatterFormat::Yaml => FrontMatterError::UnclosedYaml,
                FrontMatterFormat::Toml => FrontMatterError::UnclosedToml,
            },
        );
    }
    let block = joined(&ls, first, close);
    let body = joined(&ls, close + 1, ls.len());
    proof {
        assert(rest.take(close - first) =~= lv.subrange(first as int, close as int));
        assert(rest.skip(close - first + 1) =~= lv.subrange(close + 1, ls.len() as int));
    }
    Ok((Some((format, block)), body))
}

fn is_blank_line(line: &Vec<char>) -> (r: bool)
    ensures
        r == is_blank(line@),
{
    let (from, to) = trim_bounds(line);
    from == to
}

/// Whether a path names a Markdown source: its extension is `md`, in any
/// case.
pub open spec fn is_markdown(path: Seq<char>) -> bool {
    path_extension(path) matches Some(ext) && same_ignoring_ascii_case(ext, "md"@)
}

/// Decides [`is_markdown`].
pub fn is_markdown_path(path: &str) -> (r: bool)
    ensures
        r == is_markdown(path@),
{
    match crate::paths::extension(path) {
        Some(ext) => eq_ignore_ascii_case(ext.as_str(), "md"),
        None => false,
    }
}

} // verus!
