//! Turning raw novel text into chapters ("units") and fixed-size chunks,
//! and the decisions of an import: which files are read, which title a
//! book gets and what its manifest says.

use vstd::prelude::*;
use crate::foreign::{is_hyphenated_uuid, new_uuid, compile_pattern, pattern_is_match, pattern_replace_all, regex_accepts, regex_is_match, regex_replace_all, Pattern};
use crate::model::{has_text, owned};
use crate::records::{BookManifest, BookSource, ImportJob, ImportStatus, Timestamp};
use crate::text::{ascii_lower, blank_range, is_white_space, chars_of, decimal, decimal_string, ends_with, ends_with_piece, is_blank, lines, line_ranges, lower_ascii, str_is_blank, string_of, trim, trim_range, trimmed};

verus! {

/// Characters per chunk.
pub const CHUNK_TARGET_CHARS: usize = 4000;

/// The regular expression that recognises a chapter heading line.
pub open spec fn chapter_source() -> Seq<char> {
    "^\\s*(第.{1,12}[章节回卷部篇集].*|#{1,3}\\s+.+)\\s*$"@
}

/// The regular expression that recognises an HTML tag.
pub open spec fn tag_source() -> Seq<char> {
    "<[^>]+>"@
}

/// The compiled patterns an import needs.
pub struct Patterns {
    chapter: Pattern,
    tag: Pattern,
}

impl Patterns {
    /// The source of the chapter-heading pattern.
    pub closed spec fn chapter_pattern(&self) -> Seq<char> {
        self.chapter@
    }

    /// The source of the HTML-tag pattern.
    pub closed spec fn tag_pattern(&self) -> Seq<char> {
        self.tag@
    }

    /// Compiles the chapter-heading and HTML-tag patterns; `None` exactly
    /// when the regex crate rejects one of them.
    pub fn compile() -> (r: Option<Patterns>)
        ensures
            r is Some <==> regex_accepts(chapter_source()) && regex_accepts(tag_source()),
            r matches Some(p) ==> p.chapter_pattern() == chapter_source() && p.tag_pattern() == tag_source(),
    {
        let chapter = compile_pattern("^\\s*(第.{1,12}[章节回卷部篇集].*|#{1,3}\\s+.+)\\s*$");
        let tag = compile_pattern("<[^>]+>");
        match (chapter, tag) {
            (Some(chapter), Some(tag)) => Some(Patterns { chapter, tag }),
            _ => None,
        }
    }
}

/// A chapter (or the text before the first chapter) of a book.
#[derive(Debug, Clone)]
pub struct TextUnit {
    pub title: String,
    pub text: String,
}

/// A chunk of a book before it is stored: its chapter, its character range
/// in the whole book and its trimmed text.
#[derive(Debug, Clone)]
pub struct PendingChunk {
    pub chapter_title: String,
    pub start_char: usize,
    pub end_char: usize,
    pub text: String,
}

pub open spec fn unit_view(u: TextUnit) -> (Seq<char>, Seq<char>) {
    (u.title@, u.text@)
}

pub open spec fn units_view(us: Seq<TextUnit>) -> Seq<(Seq<char>, Seq<char>)> {
    us.map_values(|u: TextUnit| unit_view(u))
}

pub open spec fn chunk_view(c: PendingChunk) -> (Seq<char>, int, int, Seq<char>) {
    (c.chapter_title@, c.start_char as int, c.end_char as int, c.text@)
}

pub open spec fn chunks_view(cs: Seq<PendingChunk>) -> Seq<(Seq<char>, int, int, Seq<char>)> {
    cs.map_values(|c: PendingChunk| chunk_view(c))
}

/// `s` without its leading `#` characters.
pub open spec fn strip_hashes(s: Seq<char>) -> Seq<char>
    decreases s.len(),
{
    if s.len() > 0 && s[0] == '#' {
        strip_hashes(s.drop_first())
    } else {
        s
    }
}

/// The title a heading line gives its chapter.
pub open spec fn heading_title(line: Seq<char>) -> Seq<char> {
    trim(strip_hashes(trim(line)))
}

/// Walks the lines of a text: the finished units, the title of the open
/// unit, and the text gathered for it. A heading closes the open unit when
/// that unit already holds more than 120 characters.
pub open spec fn unit_fold(ls: Seq<Seq<char>>, heads: Seq<bool>, fallback: Seq<char>) -> (
    Seq<(Seq<char>, Seq<char>)>,
    Seq<char>,
    Seq<char>,
)
    decreases ls.len(),
{
    if ls.len() == 0 {
        (seq![], fallback, seq![])
    } else {
        let prev = unit_fold(ls.drop_last(), heads, fallback);
        let line = ls.last();
        let h = heads[ls.len() - 1];
        if h && prev.2.len() > 120 {
            (prev.0.push((prev.1, trim(prev.2))), heading_title(line), seq![])
        } else if h {
            (prev.0, heading_title(line), prev.2 + line.push('\n'))
        } else {
            (prev.0, prev.1, prev.2 + line.push('\n'))
        }
    }
}

/// The units of a text whose lines are `ls`, where `heads[i]` tells whether
/// line `i` is a chapter heading.
pub open spec fn units_of(ls: Seq<Seq<char>>, heads: Seq<bool>, fallback: Seq<char>) -> Seq<
    (Seq<char>, Seq<char>),
> {
    let f = unit_fold(ls, heads, fallback);
    if !is_blank(f.2) {
        f.0.push((f.1, trim(f.2)))
    } else {
        f.0
    }
}

proof fn lemma_strip_hashes_step(v: Seq<char>, a: int, b: int)
    requires
        0 <= a < b <= v.len(),
        v[a] == '#',
    ensures
        strip_hashes(v.subrange(a, b)) == strip_hashes(v.subrange(a + 1, b)),
{
    assert(v.subrange(a, b).drop_first() =~= v.subrange(a + 1, b));
}

/// The chapter title a heading line gives (`trim`, then
/// `trim_start_matches('#')`, then `trim`).
pub fn heading_title_of(line: &str) -> (r: String)
    ensures
        r@ == heading_title(line@),
{
    let v = chars_of(line);
    let (a, b) = trim_range(&v, 0, v.len());
    assert(v@.subrange(0, v@.len() as int) =~= v@);
    let mut h = a;
    while h < b && v[h] == '#'
        invariant
            a <= h <= b <= v.len(),
            strip_hashes(v@.subrange(a as int, b as int)) == strip_hashes(
                v@.subrange(h as int, b as int),
            ),
        decreases b - h,
    {
        proof {
            lemma_strip_hashes_step(v@, h as int, b as int);
        }
        h = h + 1;
    }
    let (c, d) = trim_range(&v, h, b);
    string_of(&v, c, d)
}

/// Groups lines into units; `heads[i]` tells whether line `i` is a chapter
/// heading.
pub fn units_from_lines(lines: &Vec<String>, heads: &Vec<bool>, fallback: &str) -> (r: Vec<
    TextUnit,
>)
    requires
        heads.len() == lines.len(),
    ensures
        units_view(r@) == units_of(lines@.map_values(|l: String| l@), heads@, fallback@),
{
    let ghost lv = lines@.map_values(|l: String| l@);
    let mut units: Vec<TextUnit> = Vec::new();
    let mut title = owned(fallback);
    let mut current = String::new();
    let mut cap: usize = 0;
    let mut i: usize = 0;
    while i < lines.len()
        invariant
            heads.len() == lines.len(),
            lv == lines@.map_values(|l: String| l@),
            i <= lines.len(),
            (units_view(units@), title@, current@) == unit_fold(lv.take(i as int), heads@, fallback@),
            cap as int == if current@.len() > 121 { 121 } else { current@.len() as int },
        decreases lines.len() - i,
    {
        proof {
            assert(lv.take(i + 1).drop_last() =~= lv.take(i as int));
            assert(lv.take(i + 1).last() == lines@[i as int]@);
        }
        let line = &lines[i];
        let h = heads[i];
        if h && cap > 120 {
            let text = trimmed(current.as_str());
            let ghost before = units@;
            units.push(TextUnit { title, text });
            proof {
                assert(units_view(units@) =~= units_view(before).push((title@, trim(current@))));
            }
            title = heading_title_of(line.as_str());
            current = String::new();
            cap = 0;
        } else {
            if h {
                title = heading_title_of(line.as_str());
            }
            let n = chars_of(line.as_str()).len();
            let ghost old_cur = current@;
            current.append(line.as_str());
            current.append("\n");
            proof {
                reveal_strlit("\n");
                assert(current@ =~= old_cur + lines@[i as int]@.push('\n'));
            }
            if cap < 121 {
                cap = if n >= 120 - cap {
                    121
                } else {
                    cap + n + 1
                };
            }
        }
        i = i + 1;
    }
    proof {
        assert(lv.take(lines.len() as int) =~= lv);
    }
    let cv = chars_of(current.as_str());
    assert(cv@.subrange(0, cv@.len() as int) =~= cv@);
    if !blank_range(&cv, 0, cv.len()) {
        let text = trimmed(current.as_str());
        let ghost before = units@;
        units.push(TextUnit { title, text });
        proof {
            assert(units_view(units@) =~= units_view(before).push((title@, trim(current@))));
        }
    }
    units
}

/// Whether line `i` of a text is a chapter heading.
pub open spec fn heading_flags(p: Seq<char>, ls: Seq<Seq<char>>) -> Seq<bool> {
    Seq::new(ls.len(), |i: int| regex_is_match(p, trim(ls[i])))
}

/// Splits a text into chapter units. A line is a heading when the chapter
/// pattern matches it once trimmed; text before the first heading belongs to
/// a unit titled `fallback_title`.
pub fn split_text_into_units(text: &str, fallback_title: &str, patterns: &Patterns) -> (r: Vec<
    TextUnit,
>)
    ensures
        units_view(r@) == units_of(
            lines(text@),
            heading_flags(patterns.chapter_pattern(), lines(text@)),
            fallback_title@,
        ),
{
    let v = chars_of(text);
    let ranges = line_ranges(&v);
    let mut ls: Vec<String> = Vec::new();
    let mut heads: Vec<bool> = Vec::new();
    let mut k: usize = 0;
    while k < ranges.len()
        invariant
            v@ == text@,
            ranges.len() == lines(v@).len(),
            forall|j: int|
                0 <= j < ranges.len() ==> {
                    &&& (#[trigger] ranges@[j]).0 <= ranges@[j].1 <= v.len()
                    &&& v@.subrange(ranges@[j].0 as int, ranges@[j].1 as int) == lines(v@)[j]
                },
            k <= ranges.len(),
            ls.len() == k,
            heads.len() == k,
            forall|j: int| 0 <= j < k ==> (#[trigger] ls@[j])@ == lines(v@)[j],
            forall|j: int|
                0 <= j < k ==> #[trigger] heads@[j] == regex_is_match(
                    patterns.chapter_pattern(),
                    trim(lines(v@)[j]),
                ),
        decreases ranges.len() - k,
    {
        let (a, b) = ranges[k];
        let (c, d) = trim_range(&v, a, b);
        let t = string_of(&v, c, d);
        let h = pattern_is_match(&patterns.chapter, t.as_str());
        ls.push(string_of(&v, a, b));
        heads.push(h);
        k = k + 1;
    }
    proof {
        assert(ls@.map_values(|l: String| l@) =~= lines(text@));
        assert(heads@ =~= heading_flags(patterns.chapter_pattern(), lines(text@)));
    }
    units_from_lines(&ls, &heads, fallback_title)
}

/// The width at which chunks are cut: the target, and one character when
/// the target is zero.
pub open spec fn chunk_width(target: int) -> int {
    if target == 0 {
        1
    } else {
        target
    }
}

/// The chunks cut from one unit whose first character sits at `start` in
/// the book: full pieces of `width` characters, then the rest if it holds
/// anything besides white space. Each chunk keeps its trimmed text.
pub open spec fn piece_chunks(title: Seq<char>, text: Seq<char>, start: int, width: int) -> Seq<
    (Seq<char>, int, int, Seq<char>),
>
    decreases text.len(),
{
    if width >= 1 && text.len() >= width {
        seq![(title, start, start + width, trim(text.take(width)))] + piece_chunks(
            title,
            text.skip(width),
            start + width,
            width,
        )
    } else if !is_blank(text) {
        seq![(title, start, start + text.len(), trim(text))]
    } else {
        seq![]
    }
}

/// Characters the units occupy in the book, one separator after each.
pub open spec fn units_span(us: Seq<(Seq<char>, Seq<char>)>) -> int
    decreases us.len(),
{
    if us.len() == 0 {
        0
    } else {
        units_span(us.drop_last()) + us.last().1.len() + 1
    }
}

/// The chunks of a book made of units `us`.
pub open spec fn chunks_of(us: Seq<(Seq<char>, Seq<char>)>, target: int) -> Seq<
    (Seq<char>, int, int, Seq<char>),
>
    decreases us.len(),
{
    if us.len() == 0 {
        seq![]
    } else {
        chunks_of(us.drop_last(), target) + piece_chunks(
            us.last().0,
            us.last().1,
            units_span(us.drop_last()),
            chunk_width(target),
        )
    }
}

proof fn lemma_piece_step(title: Seq<char>, v: Seq<char>, pos: int, start: int, width: int)
    requires
        width >= 1,
        0 <= pos,
        pos + width <= v.len(),
    ensures
        piece_chunks(title, v.subrange(pos, v.len() as int), start, width) == seq![
            (title, start, start + width, trim(v.subrange(pos, pos + width))),
        ] + piece_chunks(title, v.subrange(pos + width, v.len() as int), start + width, width),
{
    let s = v.subrange(pos, v.len() as int);
    assert(s.take(width) =~= v.subrange(pos, pos + width));
    assert(s.skip(width) =~= v.subrange(pos + width, v.len() as int));
}

fn push_unit_chunks(out: &mut Vec<PendingChunk>, title: &String, text: &str, base: usize, width: usize)
    requires
        width >= 1,
        base + text@.len() <= usize::MAX,
    ensures
        chunks_view(final(out)@) == chunks_view(old(out)@) + piece_chunks(
            title@,
            text@,
            base as int,
            width as int,
        ),
{
    let v = chars_of(text);
    let n = v.len();
    let ghost start_view = chunks_view(out@);
    let mut pos: usize = 0;
    proof {
        assert(v@.subrange(0, n as int) =~= v@);
        assert(chunks_view(out@) =~= start_view + Seq::<(Seq<char>, int, int, Seq<char>)>::empty());
    }
    while n - pos >= width
        invariant
            width >= 1,
            n == v.len(),
            v@ == text@,
            base + n <= usize::MAX,
            pos <= n,
            exists|done: Seq<(Seq<char>, int, int, Seq<char>)>|
                {
                    &&& #[trigger] chunks_view(out@) == start_view + done
                    &&& done + piece_chunks(
                        title@,
                        v@.subrange(pos as int, n as int),
                        base + pos,
                        width as int,
                    ) == piece_chunks(title@, v@, base as int, width as int)
                },
        decreases n - pos,
    {
        let (c, d) = trim_range(&v, pos, pos + width);
        let chunk = PendingChunk {
            chapter_title: title.clone(),
            start_char: base + pos,
            end_char: base + pos + width,
            text: string_of(&v, c, d),
        };
        let ghost before = chunks_view(out@);
        let ghost done = choose|done: Seq<(Seq<char>, int, int, Seq<char>)>|
            {
                &&& #[trigger] chunks_view(out@) == start_view + done
                &&& done + piece_chunks(
                    title@,
                    v@.subrange(pos as int, n as int),
                    base + pos,
                    width as int,
                ) == piece_chunks(title@, v@, base as int, width as int)
            };
        out.push(chunk);
        proof {
            lemma_piece_step(title@, v@, pos as int, base + pos, width as int);
            let c0 = (title@, base + pos, base + pos + width, trim(v@.subrange(pos as int, pos + width)));
            assert(chunks_view(out@) =~= before.push(c0));
            assert(chunks_view(out@) =~= start_view + done.push(c0));
            assert(done.push(c0) + piece_chunks(
                title@,
                v@.subrange(pos + width, n as int),
                base + pos + width,
                width as int,
            ) =~= done + (seq![c0] + piece_chunks(
                title@,
                v@.subrange(pos + width, n as int),
                base + pos + width,
                width as int,
            )));
        }
        pos = pos + width;
    }
    let ghost done = choose|done: Seq<(Seq<char>, int, int, Seq<char>)>|
        {
            &&& #[trigger] chunks_view(out@) == start_view + done
            &&& done + piece_chunks(
                title@,
                v@.subrange(pos as int, n as int),
                base + pos,
                width as int,
            ) == piece_chunks(title@, v@, base as int, width as int)
        };
    if !blank_range(&v, pos, n) {
        let (c, d) = trim_range(&v, pos, n);
        let chunk = PendingChunk {
            chapter_title: title.clone(),
            start_char: base + pos,
            end_char: base + n,
            text: string_of(&v, c, d),
        };
        let ghost before = chunks_view(out@);
        out.push(chunk);
        proof {
            let c0 = (title@, base + pos, base + n as int, trim(v@.subrange(pos as int, n as int)));
            assert(chunks_view(out@) =~= before.push(c0));
            assert(piece_chunks(title@, v@.subrange(pos as int, n as int), base + pos, width as int)
                == seq![c0]);
            assert(chunks_view(out@) =~= start_view + (done + seq![c0]));
        }
    } else {
        proof {
            assert(piece_chunks(title@, v@.subrange(pos as int, n as int), base + pos, width as int)
                =~= Seq::<(Seq<char>, int, int, Seq<char>)>::empty());
            assert(done =~= done + Seq::<(Seq<char>, int, int, Seq<char>)>::empty());
        }
    }
}

/// Whether the units fit, with their separators, in the range of `usize`.
pub fn units_fit(units: &Vec<TextUnit>) -> (r: bool)
    ensures
        r == (units_span(units_view(units@)) <= usize::MAX),
{
    let mut total: usize = 0;
    let mut i: usize = 0;
    while i < units.len()
        invariant
            i <= units.len(),
            total as int == units_span(units_view(units@).take(i as int)),
        decreases units.len() - i,
    {
        proof {
            assert(units_view(units@).take(i + 1).drop_last() =~= units_view(units@).take(i as int));
        }
        let n = chars_of(units[i].text.as_str()).len();
        if n >= usize::MAX - total {
            proof {
                lemma_span_prefix_le(units_view(units@), i + 1);
            }
            return false;
        }
        total = total + n + 1;
        i = i + 1;
    }
    proof {
        assert(units_view(units@).take(units.len() as int) =~= units_view(units@));
    }
    true
}

proof fn lemma_span_prefix_le(us: Seq<(Seq<char>, Seq<char>)>, k: int)
    requires
        0 <= k <= us.len(),
    ensures
        units_span(us.take(k)) <= units_span(us),
    decreases us.len() - k,
{
    if k < us.len() {
        lemma_span_prefix_le(us, k + 1);
        assert(us.take(k + 1).drop_last() =~= us.take(k));
    } else {
        assert(us.take(k) =~= us);
    }
}

/// Cuts the units of a book into chunks of `target_chars` characters; the
/// character offsets count one separator after each unit.
pub fn chunk_units(units: &Vec<TextUnit>, target_chars: usize) -> (r: Vec<PendingChunk>)
    requires
        units_span(units_view(units@)) <= usize::MAX,
    ensures
        chunks_view(r@) == chunks_of(units_view(units@), target_chars as int),
{
    let width: usize = if target_chars == 0 {
        1
    } else {
        target_chars
    };
    let ghost uv = units_view(units@);
    let mut out: Vec<PendingChunk> = Vec::new();
    let mut cursor: usize = 0;
    let mut i: usize = 0;
    while i < units.len()
        invariant
            uv == units_view(units@),
            units_span(uv) <= usize::MAX,
            width as int == chunk_width(target_chars as int),
            i <= units.len(),
            cursor as int == units_span(uv.take(i as int)),
            chunks_view(out@) == chunks_of(uv.take(i as int), target_chars as int),
        decreases units.len() - i,
    {
        proof {
            assert(uv.take(i + 1).drop_last() =~= uv.take(i as int));
            lemma_span_prefix_le(uv, i + 1);
        }
        push_unit_chunks(&mut out, &units[i].title, units[i].text.as_str(), cursor, width);
        cursor = cursor + chars_of(units[i].text.as_str()).len() + 1;
        i = i + 1;
    }
    proof {
        assert(uv.take(units.len() as int) =~= uv);
    }
    out
}

/// Why an import could not go on.
#[derive(Debug, Clone)]
pub enum ImportError {
    /// The file's extension (lower-cased) names no supported format.
    UnsupportedType(String),
    /// Nothing readable was found.
    NoText,
    /// The text gave no chunk.
    TooShort,
    /// The regex crate rejected one of the import patterns.
    PatternUnavailable,
}

/// The message shown for an import error.
pub open spec fn import_error_text(e: ImportError) -> Seq<char> {
    match e {
        ImportError::UnsupportedType(ext) => "暂不支持该文件类型："@ + ext@
            + "。请使用 txt、md、无 DRM epub 或章节文件夹"@,
        ImportError::NoText => "没有读到可导入的正文"@,
        ImportError::TooShort => "正文太短或无法分片"@,
        ImportError::PatternUnavailable => "导入规则无法编译"@,
    }
}

impl ImportError {
    pub fn message(&self) -> (r: String)
        ensures
            r@ == import_error_text(*self),
    {
        match self {
            ImportError::UnsupportedType(ext) => {
                let mut m = owned("暂不支持该文件类型：");
                m.append(ext.as_str());
                m.append("。请使用 txt、md、无 DRM epub 或章节文件夹");
                m
            },
            ImportError::NoText => owned("没有读到可导入的正文"),
            ImportError::TooShort => owned("正文太短或无法分片"),
            ImportError::PatternUnavailable => owned("导入规则无法编译"),
        }
    }
}

/// `s` with ASCII letters in lower case.
pub open spec fn lowered(s: Seq<char>) -> Seq<char> {
    s.map_values(|c: char| ascii_lower(c))
}

/// The text of an optional string, empty when absent.
pub open spec fn text_or_empty(o: Option<String>) -> Seq<char> {
    match o {
        Some(s) => s@,
        None => seq![],
    }
}

fn same_chars(a: &Vec<char>, b: &Vec<char>) -> (r: bool)
    ensures
        r == (a@ == b@),
{
    if a.len() != b.len() {
        return false;
    }
    let mut i: usize = 0;
    while i < a.len()
        invariant
            a.len() == b.len(),
            i <= a.len(),
            forall|k: int| 0 <= k < i ==> a@[k] == b@[k],
        decreases a.len() - i,
    {
        if a[i] != b[i] {
            assert(a@[i as int] != b@[i as int]);
            return false;
        }
        i = i + 1;
    }
    assert(a@ =~= b@);
    true
}

fn lowered_chars(o: &Option<String>) -> (r: Vec<char>)
    ensures
        r@ == lowered(text_or_empty(*o)),
{
    match o {
        Some(s) => chars_of(lower_ascii(s.as_str()).as_str()),
        None => {
            let v: Vec<char> = Vec::new();
            assert(v@ =~= lowered(text_or_empty(*o)));
            v
        },
    }
}

/// How a source is read.
#[derive(Debug, Clone, Copy, PartialEq, Eq, Structural)]
pub enum SourceFormat {
    /// A folder of `.txt` and `.md` chapter files.
    Folder,
    /// One `.txt` or `.md` file.
    TextFile,
    /// An `.epub` archive.
    Epub,
}

/// Picks the reader for a source from whether it is a folder and from its
/// extension, compared without regard to ASCII case.
pub fn source_format(is_dir: bool, extension: &Option<String>) -> (r: Result<SourceFormat, ImportError>)
    ensures
        is_dir ==> r == Ok::<SourceFormat, ImportError>(SourceFormat::Folder),
        !is_dir ==> {
            let e = lowered(text_or_empty(*extension));
            if e == "txt"@ || e == "md"@ {
                r == Ok::<SourceFormat, ImportError>(SourceFormat::TextFile)
            } else if e == "epub"@ {
                r == Ok::<SourceFormat, ImportError>(SourceFormat::Epub)
            } else {
                r matches Err(ImportError::UnsupportedType(x)) && x@ == e
            }
        },
{
    if is_dir {
        return Ok(SourceFormat::Folder);
    }
    let e = lowered_chars(extension);
    if same_chars(&e, &chars_of("txt")) || same_chars(&e, &chars_of("md")) {
        Ok(SourceFormat::TextFile)
    } else if same_chars(&e, &chars_of("epub")) {
        Ok(SourceFormat::Epub)
    } else {
        assert(e@.subrange(0, e@.len() as int) =~= e@);
        Err(ImportError::UnsupportedType(string_of(&e, 0, e.len())))
    }
}

/// Whether a file in a chapter folder is read: its extension is `txt` or
/// `md`, without regard to ASCII case.
pub fn is_text_extension(extension: &Option<String>) -> (r: bool)
    ensures
        r == (extension is Some && (lowered(text_or_empty(*extension)) == "txt"@ || lowered(
            text_or_empty(*extension),
        ) == "md"@)),
{
    if extension.is_none() {
        return false;
    }
    let e = lowered_chars(extension);
    same_chars(&e, &chars_of("txt")) || same_chars(&e, &chars_of("md"))
}

/// The units of a plain-text file whose stem is `stem`.
pub fn text_file_units(text: &str, stem: &Option<String>, patterns: &Patterns) -> (r: Vec<TextUnit>)
    ensures
        units_view(r@) == units_of(
            lines(text@),
            heading_flags(patterns.chapter_pattern(), lines(text@)),
            match stem {
                Some(s) => s@,
                None => "正文"@,
            },
        ),
{
    let fallback = match stem {
        Some(s) => s.clone(),
        None => owned("正文"),
    };
    split_text_into_units(text, fallback.as_str(), patterns)
}

/// The title of an epub entry without a file stem.
pub open spec fn epub_fallback_title(index: nat) -> Seq<char> {
    "epub-"@ + decimal(index)
}

/// The text an epub entry contributes, when it is read at all: `.txt`
/// entries as they are, `.xhtml` and `.html` entries with every tag turned
/// into a line break. `None` for other entries.
pub open spec fn epub_entry_text(name: Seq<char>, raw: Seq<char>, tag: Seq<char>) -> Option<Seq<char>> {
    let n = lowered(name);
    if ends_with(n, ".txt"@) {
        Some(raw)
    } else if ends_with(n, ".xhtml"@) || ends_with(n, ".html"@) {
        Some(regex_replace_all(tag, raw, "\n"@))
    } else {
        None
    }
}

/// Whether an epub entry with this name is read at all.
pub open spec fn epub_entry_read(name: Seq<char>) -> bool {
    let n = lowered(name);
    ends_with(n, ".txt"@) || ends_with(n, ".xhtml"@) || ends_with(n, ".html"@)
}

/// Whether an epub entry is read: its name ends in `.txt`, `.xhtml` or
/// `.html`, without regard to ASCII case.
pub fn is_epub_text_entry(name: &str) -> (r: bool)
    ensures
        r == epub_entry_read(name@),
{
    let lname = chars_of(lower_ascii(name).as_str());
    ends_with_piece(&lname, &chars_of(".txt")) || ends_with_piece(&lname, &chars_of(".xhtml"))
        || ends_with_piece(&lname, &chars_of(".html"))
}

/// The units of entry number `index` of an epub archive, named `name`, with
/// raw content `raw`; `stem` is the file stem of the name. The unit title
/// is the lower-cased stem, or `epub-<index>` without one.
pub fn epub_entry_units(
    name: &str,
    raw: &str,
    stem: &Option<String>,
    index: usize,
    patterns: &Patterns,
) -> (r: Option<Vec<TextUnit>>)
    ensures
        match epub_entry_text(name@, raw@, patterns.tag_pattern()) {
            None => r is None,
            Some(t) => r matches Some(us) && units_view(us@) == units_of(
                lines(t),
                heading_flags(patterns.chapter_pattern(), lines(t)),
                match stem {
                    Some(s) => lowered(s@),
                    None => epub_fallback_title(index as nat),
                },
            ),
        },
{
    let lname = chars_of(lower_ascii(name).as_str());
    let is_txt = ends_with_piece(&lname, &chars_of(".txt"));
    let is_html = ends_with_piece(&lname, &chars_of(".xhtml")) || ends_with_piece(
        &lname,
        &chars_of(".html"),
    );
    if !is_txt && !is_html {
        return None;
    }
    let text = if is_txt {
        owned(raw)
    } else {
        pattern_replace_all(&patterns.tag, raw, "\n")
    };
    let title = match stem {
        Some(s) => lower_ascii(s.as_str()),
        None => {
            let mut t = owned("epub-");
            t.append(decimal_string(index).as_str());
            t
        },
    };
    Some(split_text_into_units(text.as_str(), title.as_str(), patterns))
}

/// The title a book gets: the given title when it holds text, else the
/// file stem of its source, else a placeholder.
pub open spec fn book_title(explicit: Option<String>, stem: Option<String>) -> Seq<char> {
    if has_text(explicit) {
        explicit->0@
    } else if stem is Some {
        stem->0@
    } else {
        "未命名小说"@
    }
}

pub fn choose_title(explicit: &Option<String>, stem: &Option<String>) -> (r: String)
    ensures
        r@ == book_title(*explicit, *stem),
{
    match explicit {
        Some(t) => {
            if !str_is_blank(t.as_str()) {
                return t.clone();
            }
        },
        None => {},
    }
    match stem {
        Some(s) => s.clone(),
        None => owned("未命名小说"),
    }
}

/// The title a book gets: the given title whenever it holds a character
/// other than white space; otherwise the file stem of the source when there
/// is one (in particular when no title was given); otherwise "未命名小说".
pub proof fn book_title_prefers_given_then_stem(explicit: Option<String>, stem: Option<String>)
    ensures
        (explicit matches Some(t) && exists|i: int| 0 <= i < t@.len() && !is_white_space(#[trigger] t@[i]))
            ==> book_title(explicit, stem) == explicit->0@,
        !(explicit matches Some(t) && exists|i: int| 0 <= i < t@.len() && !is_white_space(#[trigger] t@[i]))
            && stem is Some ==> book_title(explicit, stem) == stem->0@,
        explicit is None && stem is Some ==> book_title(explicit, stem) == stem->0@,
        !(explicit matches Some(t) && exists|i: int| 0 <= i < t@.len() && !is_white_space(#[trigger] t@[i]))
            && stem is None ==> book_title(explicit, stem) == "未命名小说"@,
{
}

/// An epub entry is read by the ending of its name, whatever its ASCII case:
/// a `.txt` entry as it is; an `.html` entry exactly like an `.xhtml` one,
/// with every match of the tag pattern replaced by a line break; any other
/// entry not at all.
pub proof fn epub_entries_by_extension(name: Seq<char>, raw: Seq<char>, tag: Seq<char>)
    ensures
        ends_with(lowered(name), ".txt"@) ==> epub_entry_text(name, raw, tag) == Some(raw),
        ends_with(lowered(name), ".html"@) ==> epub_entry_text(name, raw, tag) == Some(
            regex_replace_all(tag, raw, "\n"@),
        ),
        ends_with(lowered(name), ".xhtml"@) ==> epub_entry_text(name, raw, tag) == Some(
            regex_replace_all(tag, raw, "\n"@),
        ),
        !ends_with(lowered(name), ".txt"@) && !ends_with(lowered(name), ".html"@) && !ends_with(
            lowered(name),
            ".xhtml"@,
        ) ==> epub_entry_text(name, raw, tag) is None,
{
    reveal_strlit(".txt");
    reveal_strlit(".html");
    reveal_strlit(".xhtml");
    let n = lowered(name);
    if ends_with(n, ".html"@) && ends_with(n, ".txt"@) {
        assert(n[n.len() - 1] == ".html"@[4]);
        assert(n[n.len() - 1] == ".txt"@[3]);
    }
    if ends_with(n, ".xhtml"@) && ends_with(n, ".txt"@) {
        assert(n[n.len() - 1] == ".xhtml"@[5]);
        assert(n[n.len() - 1] == ".txt"@[3]);
    }
}

/// A book ready to be stored: its manifest and its chunks.
#[derive(Debug, Clone)]
pub struct PreparedBook {
    pub manifest: BookManifest,
    pub chunks: Vec<PendingChunk>,
}

/// Everything of a prepared book but its identifier.
pub open spec fn prepared_as(
    b: PreparedBook,
    units: Seq<(Seq<char>, Seq<char>)>,
    source: BookSource,
    stem: Option<String>,
    created_at: Seq<char>,
) -> bool {
    let cs = chunks_of(units, CHUNK_TARGET_CHARS as int);
    &&& chunks_view(b.chunks@) == cs
    &&& b.manifest.title@ == book_title(source.title, stem)
    &&& b.manifest.source_path@ == source.path@
    &&& b.manifest.chapter_count == units.len()
    &&& b.manifest.chunk_count == cs.len()
    &&& b.manifest.char_count == cs.last().2
    &&& b.manifest.status == ImportStatus::Completed
    &&& b.manifest.created_at@ == created_at
}

/// Builds the manifest and chunks of a book read as `units` from `source`,
/// under a fresh random identifier; `stem` is the file stem of the source
/// path. Fails when there is no unit or no chunk.
pub fn prepare_book(
    units: &Vec<TextUnit>,
    source: &BookSource,
    stem: &Option<String>,
    created_at: Timestamp,
) -> (r: Result<PreparedBook, ImportError>)
    requires
        units_span(units_view(units@)) <= usize::MAX,
    ensures
        units@.len() == 0 ==> r matches Err(ImportError::NoText),
        units@.len() > 0 && chunks_of(units_view(units@), CHUNK_TARGET_CHARS as int).len() == 0
            ==> r matches Err(ImportError::TooShort),
        units@.len() > 0 && chunks_of(units_view(units@), CHUNK_TARGET_CHARS as int).len() > 0
            ==> (r matches Ok(b) && prepared_as(b, units_view(units@), *source, *stem, created_at@)
            && is_hyphenated_uuid(b.manifest.id@)),
{
    if units.len() == 0 {
        return Err(ImportError::NoText);
    }
    let title = choose_title(&source.title, stem);
    let chunks = chunk_units(units, CHUNK_TARGET_CHARS);
    if chunks.len() == 0 {
        return Err(ImportError::TooShort);
    }
    let id = new_uuid();
    let char_count = chunks[chunks.len() - 1].end_char;
    proof {
        assert(chunks_view(chunks@).last() == chunk_view(chunks@.last()));
    }
    let manifest = BookManifest {
        id,
        title,
        source_path: source.path.clone(),
        chapter_count: units.len(),
        chunk_count: chunks.len(),
        char_count,
        status: ImportStatus::Completed,
        created_at,
    };
    Ok(PreparedBook { manifest, chunks })
}

/// The two progress points an import reports while it works.
#[derive(Debug, Clone, Copy, PartialEq, Eq, Structural)]
pub enum ImportStage {
    /// Reading the source and splitting it.
    Splitting,
    /// Writing chunks and their search index.
    Indexing,
}

/// Progress (in thousandths) and message of an import stage.
pub fn stage_progress(stage: ImportStage) -> (r: (u16, String))
    ensures
        stage == ImportStage::Splitting ==> r.0 == 150 && r.1@ == "正在分章和分片"@,
        stage == ImportStage::Indexing ==> r.0 == 450 && r.1@ == "正在建立本地检索索引"@,
{
    match stage {
        ImportStage::Splitting => (150, owned("正在分章和分片")),
        ImportStage::Indexing => (450, owned("正在建立本地检索索引")),
    }
}

/// The progress (in thousandths) an import stage reports.
pub open spec fn stage_permille(stage: ImportStage) -> u16 {
    match stage {
        ImportStage::Splitting => 150,
        ImportStage::Indexing => 450,
    }
}

/// The message an import stage reports.
pub open spec fn stage_message(stage: ImportStage) -> Seq<char> {
    match stage {
        ImportStage::Splitting => "正在分章和分片"@,
        ImportStage::Indexing => "正在建立本地检索索引"@,
    }
}

/// What happens to an import job while it runs.
#[derive(Debug, Clone)]
pub enum ImportEvent {
    /// The run starts reading the source.
    Begin,
    /// The run reaches a stage.
    Reached(ImportStage),
    /// The book was stored under this identifier.
    Finished(String),
    /// The run failed with this message.
    Aborted(String),
}

/// Whether `event` may come next for `job`. A run may be started on any
/// job; a stage comes while the job runs and lies ahead of its progress;
/// the book is finished once indexing was reached; a running job may fail
/// at any point.
pub open spec fn step_allowed(job: ImportJob, event: ImportEvent) -> bool {
    match event {
        ImportEvent::Begin => true,
        ImportEvent::Reached(stage) => job.status == ImportStatus::Running && job.progress_permille
            < stage_permille(stage),
        ImportEvent::Finished(_) => job.status == ImportStatus::Running && job.progress_permille
            == stage_permille(ImportStage::Indexing),
        ImportEvent::Aborted(_) => job.status == ImportStatus::Running,
    }
}

/// The job `next` that `event` makes of `job`: same identifier and creation
/// time, and the status, progress, message and book of the event.
pub open spec fn step_result(job: ImportJob, event: ImportEvent, next: ImportJob) -> bool {
    &&& next.id == job.id
    &&& next.created_at == job.created_at
    &&& match event {
        ImportEvent::Begin => next.status == ImportStatus::Running && next.progress_permille == 50
            && next.message@ == "正在读取小说"@ && next.book_id == job.book_id,
        ImportEvent::Reached(stage) => next.status == ImportStatus::Running && next.progress_permille
            == stage_permille(stage) && next.message@ == stage_message(stage) && next.book_id
            == job.book_id,
        ImportEvent::Finished(book_id) => next.status == ImportStatus::Completed
            && next.progress_permille == 1000 && next.message@ == "索引完成，可以开始穿书"@
            && next.book_id == Some(book_id),
        ImportEvent::Aborted(message) => next.status == ImportStatus::Failed
            && next.progress_permille == 1000 && next.message == message && next.book_id is None,
    }
}

/// The job after `event`, or `None` when the event is out of order.
pub fn next_job(job: &ImportJob, event: ImportEvent) -> (r: Option<ImportJob>)
    ensures
        r is Some <==> step_allowed(*job, event),
        r matches Some(next) ==> step_result(*job, event, next),
{
    match event {
        ImportEvent::Begin => Some(job.running()),
        ImportEvent::Reached(stage) => {
            if job.status == ImportStatus::Running && job.progress_permille < stage_permille_of(stage) {
                let (progress_permille, message) = stage_progress(stage);
                Some(ImportJob {
                    id: job.id.clone(),
                    status: ImportStatus::Running,
                    progress_permille,
                    message,
                    book_id: job.book_id.clone(),
                    created_at: job.created_at.clone(),
                })
            } else {
                None
            }
        },
        ImportEvent::Finished(book_id) => {
            if job.status == ImportStatus::Running && job.progress_permille == 450 {
                Some(job.completed(book_id))
            } else {
                None
            }
        },
        ImportEvent::Aborted(message) => {
            if job.status == ImportStatus::Running {
                Some(job.failed(message))
            } else {
                None
            }
        },
    }
}

fn stage_permille_of(stage: ImportStage) -> (r: u16)
    ensures
        r == stage_permille(stage),
{
    match stage {
        ImportStage::Splitting => 150,
        ImportStage::Indexing => 450,
    }
}

/// How far a status lies along a run: queued, then running, then done.
pub open spec fn status_rank(status: ImportStatus) -> int {
    match status {
        ImportStatus::Queued => 0,
        ImportStatus::Running => 1,
        ImportStatus::Completed => 2,
        ImportStatus::Failed => 2,
    }
}

/// A job names a book exactly when it has completed; a queued job has made
/// no progress, a running one at most the indexing stage's, a finished one
/// all of it.
pub open spec fn job_consistent(job: ImportJob) -> bool {
    &&& job.book_id is Some <==> job.status == ImportStatus::Completed
    &&& job.status == ImportStatus::Queued ==> job.progress_permille == 0
    &&& job.status == ImportStatus::Running ==> job.progress_permille <= stage_permille(ImportStage::Indexing)
    &&& status_rank(job.status) == 2 ==> job.progress_permille == 1000
}

/// Along a run of a queued job, a step never moves the job back: its
/// status goes queued, running, then completed or failed; its progress
/// never decreases; it keeps its identifier and creation time; it names a
/// book exactly when completed; and a finished job takes no further step
/// but a new run.
pub proof fn import_job_moves_forward(job: ImportJob, event: ImportEvent, next: ImportJob)
    requires
        job_consistent(job),
        event is Begin ==> job.status == ImportStatus::Queued,
        step_allowed(job, event),
        step_result(job, event, next),
    ensures
        next.id == job.id,
        next.created_at == job.created_at,
        status_rank(job.status) <= status_rank(next.status),
        job.progress_permille <= next.progress_permille,
        job_consistent(next),
        status_rank(job.status) == 2 ==> event is Begin,
{
}

/// `jobs` are the successive states of one run of a queued job driven by
/// `events`: the run starts once and every event is allowed and applied.
pub open spec fn is_job_run(jobs: Seq<ImportJob>, events: Seq<ImportEvent>) -> bool {
    &&& jobs.len() == events.len() + 1
    &&& jobs[0].status == ImportStatus::Queued
    &&& job_consistent(jobs[0])
    &&& forall|k: int| 0 < k < events.len() ==> !(#[trigger] events[k] is Begin)
    &&& forall|k: int|
        0 <= k < events.len() ==> step_allowed(#[trigger] jobs[k], events[k]) && step_result(
            jobs[k],
            events[k],
            jobs[k + 1],
        )
}

/// Over a whole run of a queued job, whoever reads the job at any point
/// sees its status only move from queued to running to completed or failed,
/// its progress never decrease, its identifier and creation time never
/// change, and a book named exactly when it has completed.
pub proof fn import_run_moves_forward(jobs: Seq<ImportJob>, events: Seq<ImportEvent>)
    requires
        is_job_run(jobs, events),
    ensures
        forall|k: int| 0 <= k < jobs.len() ==> job_consistent(#[trigger] jobs[k]),
        forall|k: int, l: int|
            0 <= k <= l < jobs.len() ==> (#[trigger] jobs[k]).id == (#[trigger] jobs[l]).id
                && jobs[k].created_at == jobs[l].created_at && status_rank(jobs[k].status)
                <= status_rank(jobs[l].status) && jobs[k].progress_permille <= jobs[l].progress_permille,
    decreases events.len(),
{
    if events.len() > 0 {
        let n = events.len() - 1;
        let pre_jobs = jobs.take(jobs.len() - 1);
        let pre_events = events.take(n);
        assert(is_job_run(pre_jobs, pre_events)) by {
            assert forall|k: int| 0 <= k < pre_events.len() implies step_allowed(#[trigger] pre_jobs[k], pre_events[k])
                && step_result(pre_jobs[k], pre_events[k], pre_jobs[k + 1]) by {
                assert(pre_jobs[k] == jobs[k] && pre_jobs[k + 1] == jobs[k + 1] && pre_events[k] == events[k]);
            }
            assert forall|k: int| 0 < k < pre_events.len() implies !(#[trigger] pre_events[k] is Begin) by {
                assert(pre_events[k] == events[k]);
            }
        }
        import_run_moves_forward(pre_jobs, pre_events);
        assert(pre_jobs[n] == jobs[n]);
        assert(job_consistent(jobs[n]));
        assert(step_allowed(jobs[n], events[n]) && step_result(jobs[n], events[n], jobs[n + 1]));
        if events[n] is Begin {
            assert(n == 0);
        }
        import_job_moves_forward(jobs[n], events[n], jobs[n + 1]);
        assert forall|k: int| 0 <= k < jobs.len() implies job_consistent(#[trigger] jobs[k]) by {
            if k < jobs.len() - 1 {
                assert(pre_jobs[k] == jobs[k]);
            }
        }
        assert forall|k: int, l: int| 0 <= k <= l < jobs.len() implies (#[trigger] jobs[k]).id == (
        #[trigger] jobs[l]).id && jobs[k].created_at == jobs[l].created_at && status_rank(jobs[k].status)
            <= status_rank(jobs[l].status) && jobs[k].progress_permille <= jobs[l].progress_permille by {
            if l < jobs.len() - 1 {
                assert(pre_jobs[k] == jobs[k] && pre_jobs[l] == jobs[l]);
            } else if k < jobs.len() - 1 {
                assert(pre_jobs[k] == jobs[k] && pre_jobs[n] == jobs[n]);
            }
        }
    }
}

proof fn lemma_pieces_ordered(title: Seq<char>, text: Seq<char>, start: int, width: int)
    requires
        width >= 1,
    ensures
        ({
            let cs = piece_chunks(title, text, start, width);
            &&& forall|k: int| 0 <= k < cs.len() ==> start <= (#[trigger] cs[k]).1 < cs[k].2 <= cs[k].1 + width
                && cs[k].2 <= start + text.len()
            &&& forall|k: int, l: int| 0 <= k < l < cs.len() ==> (#[trigger] cs[k]).2 <= (#[trigger] cs[l]).1
        }),
    decreases text.len(),
{
    if text.len() >= width {
        lemma_pieces_ordered(title, text.skip(width), start + width, width);
        let rest = piece_chunks(title, text.skip(width), start + width, width);
        let cs = piece_chunks(title, text, start, width);
        assert forall|k: int| 0 <= k < cs.len() implies start <= (#[trigger] cs[k]).1 < cs[k].2 <= cs[k].1 + width
            && cs[k].2 <= start + text.len() by {
            if k > 0 {
                assert(cs[k] == rest[k - 1]);
            }
        }
        assert forall|k: int, l: int| 0 <= k < l < cs.len() implies (#[trigger] cs[k]).2 <= (#[trigger] cs[l]).1 by {
            assert(cs[l] == rest[l - 1]);
            if k > 0 {
                assert(cs[k] == rest[k - 1]);
            }
        }
    } else if !is_blank(text) {
        assert(text.len() > 0);
    }
}

/// The chunks of a book run in order without overlapping: each starts
/// before it ends, spans at most the chunk width, ends before the next one
/// starts, and lies inside the characters the units occupy.
pub proof fn chunks_stay_in_order(us: Seq<(Seq<char>, Seq<char>)>, target: nat)
    ensures
        ({
            let cs = chunks_of(us, target as int);
            &&& forall|k: int| 0 <= k < cs.len() ==> 0 <= (#[trigger] cs[k]).1 < cs[k].2 <= cs[k].1
                + chunk_width(target as int) && cs[k].2 <= units_span(us)
            &&& forall|k: int, l: int| 0 <= k < l < cs.len() ==> (#[trigger] cs[k]).2 <= (#[trigger] cs[l]).1
        }),
    decreases us.len(),
{
    if us.len() > 0 {
        let pre = us.drop_last();
        chunks_stay_in_order(pre, target);
        lemma_span_nonneg(pre);
        let w = chunk_width(target as int);
        let a = chunks_of(pre, target as int);
        let b = piece_chunks(us.last().0, us.last().1, units_span(pre), w);
        lemma_pieces_ordered(us.last().0, us.last().1, units_span(pre), w);
        let cs = chunks_of(us, target as int);
        assert(cs == a + b);
        assert forall|k: int| 0 <= k < cs.len() implies 0 <= (#[trigger] cs[k]).1 < cs[k].2 <= cs[k].1 + w
            && cs[k].2 <= units_span(us) by {
            if k >= a.len() {
                assert(cs[k] == b[k - a.len()]);
            }
        }
        assert forall|k: int, l: int| 0 <= k < l < cs.len() implies (#[trigger] cs[k]).2 <= (#[trigger] cs[l]).1 by {
            if l >= a.len() {
                assert(cs[l] == b[l - a.len()]);
                if k >= a.len() {
                    assert(cs[k] == b[k - a.len()]);
                }
            }
        }
    }
}

proof fn lemma_span_nonneg(us: Seq<(Seq<char>, Seq<char>)>)
    ensures
        units_span(us) >= 0,
    decreases us.len(),
{
    if us.len() > 0 {
        lemma_span_nonneg(us.drop_last());
    }
}

} // verus!
