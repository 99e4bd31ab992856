//! The theater text format: a plain-text container of titled sections that
//! can be imported into and exported from the theater store.
//!
//! A section starts at a `###` marker line followed by a `Title:` line;
//! `Category:` and `Desc:` lines may follow, and everything after the
//! metadata is the section's content. Line reading is character-based and
//! case-insensitive through the lowercase mapping.

use vstd::prelude::*;
use vstd::string::{StrSliceExecFns, StringExecFns};

use crate::tokens::{copy_string, texts_view};
use crate::versions::{trim_of, trim_str};

verus! {

/// One parsed theater: its title, category, summary, and content.
pub struct ParsedTheater {
    pub title: String,
    pub category: String,
    pub desc: String,
    pub content: String,
}

/// The mathematical image of a [`ParsedTheater`].
#[verifier::ext_equal]
pub struct TheaterView {
    pub title: Seq<char>,
    pub category: Seq<char>,
    pub desc: Seq<char>,
    pub content: Seq<char>,
}

impl View for ParsedTheater {
    type V = TheaterView;

    open spec fn view(&self) -> TheaterView {
        TheaterView {
            title: self.title@,
            category: self.category@,
            desc: self.desc@,
            content: self.content@,
        }
    }
}

/// The views of a sequence of parsed theaters.
pub open spec fn theaters_view(s: Seq<ParsedTheater>) -> Seq<TheaterView> {
    s.map_values(|p: ParsedTheater| p@)
}

/// What lowercasing a text yields.
pub uninterp spec fn lower_of(s: Seq<char>) -> Seq<char>;

/// Relies on `str::to_lowercase`: the result depends on the characters
/// alone.
#[verifier::external_body]
fn lowercase(s: &str) -> (r: String)
    ensures
        r@ == lower_of(s@),
{
    s.to_lowercase()
}

/// True when `p` is a prefix of `s`.
pub open spec fn starts_with(s: Seq<char>, p: Seq<char>) -> bool {
    s.len() >= p.len() && s.subrange(0, p.len() as int) == p
}

/// Decides whether `p` is a prefix of `s`.
fn has_prefix(s: &String, p: &str) -> (r: bool)
    ensures
        r == starts_with(s@, p@),
{
    let plen: usize = p.unicode_len();
    let slen: usize = s.as_str().unicode_len();
    if slen < plen {
        return false;
    }
    let head = s.as_str().substring_char(0, plen).to_owned();
    head == p.to_owned()
}

/// The count of characters of `s` before its first line break.
pub open spec fn first_break(s: Seq<char>) -> nat
    decreases s.len(),
{
    if s.len() == 0 || s[0] == '\n' || s[0] == '\r' {
        0
    } else {
        (1 + first_break(s.skip(1))) as nat
    }
}

/// The lines of a text: pieces between breaks, where `\r\n`, `\r`, and
/// `\n` each end a line.
pub open spec fn split_breaks(s: Seq<char>) -> Seq<Seq<char>>
    decreases s.len(),
{
    let k = first_break(s);
    if k >= s.len() {
        seq![s]
    } else if s[k as int] == '\r' && k + 1 < s.len() && s[k as int + 1] == '\n' {
        seq![s.take(k as int)] + split_breaks(s.skip(k as int + 2))
    } else {
        seq![s.take(k as int)] + split_breaks(s.skip(k as int + 1))
    }
}

/// The lines a text is read as: a final empty piece, as left by a trailing
/// break, is dropped.
pub open spec fn spec_lines(s: Seq<char>) -> Seq<Seq<char>> {
    let p = split_breaks(s);
    if p.last().len() == 0 {
        p.drop_last()
    } else {
        p
    }
}

/// A break sits at `k` when everything before `k` is not a break character
/// and `k` is a break character or the end.
proof fn lemma_first_break_at(s: Seq<char>, k: int)
    requires
        0 <= k <= s.len(),
        forall|j: int| 0 <= j < k ==> s[j] != '\n' && s[j] != '\r',
        k < s.len() ==> (s[k] == '\n' || s[k] == '\r'),
    ensures
        first_break(s) == k,
    decreases k,
{
    if k > 0 {
        lemma_first_break_at(s.skip(1), k - 1);
    }
}

/// Splits a text into its lines.
pub fn split_lines(s: &String) -> (r: Vec<String>)
    ensures
        texts_view(r@) == spec_lines(s@),
{
    let total: usize = s.as_str().unicode_len();
    let mut out: Vec<String> = Vec::new();
    let mut pos: usize = 0;
    proof {
        assert(s@.skip(0) =~= s@);
        assert(texts_view(out@) =~= Seq::<Seq<char>>::empty());
    }
    loop
        invariant_except_break
            pos <= total,
            total == s@.len(),
            split_breaks(s@) == texts_view(out@) + split_breaks(s@.skip(pos as int)),
        ensures
            texts_view(out@) == split_breaks(s@),
        decreases total - pos + 1,
    {
        let ghost rem = s@.skip(pos as int);
        let mut k: usize = pos;
        while k < total && s.as_str().get_char(k) != '\n' && s.as_str().get_char(k) != '\r'
            invariant
                pos <= k <= total,
                total == s@.len(),
                forall|j: int| pos <= j < k ==> s@[j] != '\n' && s@[j] != '\r',
            decreases total - k,
        {
            k = k + 1;
        }
        proof {
            lemma_first_break_at(rem, k - pos);
            assert(rem.take(k - pos) =~= s@.subrange(pos as int, k as int));
        }
        let piece = s.as_str().substring_char(pos, k).to_owned();
        let ghost old_out = out@;
        out.push(piece);
        proof {
            assert(texts_view(out@) =~= texts_view(old_out).push(rem.take(k - pos)));
        }
        if k == total {
            proof {
                assert(first_break(rem) == rem.len());
                assert(split_breaks(rem) =~= seq![rem]);
                assert(rem.take(k - pos) =~= rem);
                assert(texts_view(old_out) + seq![rem] =~= texts_view(out@));
            }
            break;
        }
        let step: usize = if s.as_str().get_char(k) == '\r' && k + 1 < total && s.as_str()
            .get_char(k + 1) == '\n' {
            2
        } else {
            1
        };
        proof {
            if step == 2 {
                assert(split_breaks(rem) == seq![rem.take(k - pos)] + split_breaks(
                    rem.skip(k - pos + 2),
                ));
                assert(rem.skip(k - pos + 2) =~= s@.skip(k + 2));
            } else {
                assert(split_breaks(rem) == seq![rem.take(k - pos)] + split_breaks(
                    rem.skip(k - pos + 1),
                ));
                assert(rem.skip(k - pos + 1) =~= s@.skip(k + 1));
            }
            assert(texts_view(old_out) + (seq![rem.take(k - pos)] + split_breaks(
                s@.skip(pos + step),
            )) =~= texts_view(out@) + split_breaks(s@.skip(pos + step)));
        }
        pos = k + step;
    }
    proof {
        assert(split_breaks(s@).len() >= 1);
    }
    if out.len() > 0 {
        let last_empty = out[out.len() - 1].as_str().is_empty();
        if last_empty {
            let ghost before = out@;
            let _ = out.pop();
            proof {
                assert(texts_view(out@) =~= texts_view(before).drop_last());
                assert(texts_view(before).drop_last() =~= split_breaks(s@).drop_last());
            }
        }
    }
    out
}


/// The default category of a theater without one.
pub open spec fn default_category() -> Seq<char> {
    "未分类"@
}

/// The default summary of a theater whose summary stays empty.
pub open spec fn default_desc() -> Seq<char> {
    "无简介"@
}

/// The scanner state while reading one section's lines.
#[verifier::ext_equal]
pub struct SectionScan {
    pub title: Seq<char>,
    pub category: Seq<char>,
    pub desc: Seq<char>,
    pub content: Seq<Seq<char>>,
    pub in_content: bool,
    pub found_title: bool,
}

/// The scanner state before any line is read.
pub open spec fn init_scan() -> SectionScan {
    SectionScan {
        title: Seq::empty(),
        category: default_category(),
        desc: Seq::empty(),
        content: Seq::empty(),
        in_content: false,
        found_title: false,
    }
}

/// The trimmed remainder of a trimmed line after its `n`-character label,
/// or nothing when the line is shorter than the label.
pub open spec fn tail_after(t: Seq<char>, n: int) -> Seq<char> {
    if t.len() >= n {
        trim_of(t.skip(n))
    } else {
        Seq::empty()
    }
}

/// How one line advances the scanner: marker lines are skipped; before the
/// content begins, `Title:`, `Category:`, and `Desc:` lines fill the
/// metadata, and the first blank or plain line after the title opens the
/// content; afterwards every line is content, kept verbatim.
pub open spec fn scan_line(st: SectionScan, l: Seq<char>) -> SectionScan {
    let t = trim_of(l);
    let low = lower_of(t);
    if starts_with(low, "###"@) {
        st
    } else if !st.in_content {
        if starts_with(low, "title:"@) {
            SectionScan {
                title: tail_after(t, 6),
                category: st.category,
                desc: st.desc,
                content: st.content,
                in_content: st.in_content,
                found_title: true,
            }
        } else if starts_with(low, "category:"@) {
            let c = tail_after(t, 9);
            SectionScan {
                title: st.title,
                category: if c.len() == 0 {
                    default_category()
                } else {
                    c
                },
                desc: st.desc,
                content: st.content,
                in_content: st.in_content,
                found_title: st.found_title,
            }
        } else if starts_with(low, "desc:"@) {
            SectionScan {
                title: st.title,
                category: st.category,
                desc: tail_after(t, 5),
                content: st.content,
                in_content: st.in_content,
                found_title: st.found_title,
            }
        } else if st.found_title && t.len() == 0 {
            SectionScan {
                title: st.title,
                category: st.category,
                desc: st.desc,
                content: st.content,
                in_content: true,
                found_title: st.found_title,
            }
        } else if st.found_title {
            SectionScan {
                title: st.title,
                category: st.category,
                desc: st.desc,
                content: st.content.push(l),
                in_content: true,
                found_title: st.found_title,
            }
        } else {
            st
        }
    } else {
        SectionScan {
            title: st.title,
            category: st.category,
            desc: st.desc,
            content: st.content.push(l),
            in_content: st.in_content,
            found_title: st.found_title,
        }
    }
}

/// The scanner state after reading `lines[i..end]`.
pub open spec fn scan_lines(
    lines: Seq<Seq<char>>,
    i: int,
    end: int,
    st: SectionScan,
) -> SectionScan
    decreases end - i,
{
    if i < 0 || i >= end || i >= lines.len() {
        st
    } else {
        scan_lines(lines, i + 1, end, scan_line(st, lines[i]))
    }
}

/// Reading one more line applies [`scan_line`] to the state so far.
proof fn lemma_scan_snoc(lines: Seq<Seq<char>>, i: int, j: int, st: SectionScan)
    requires
        0 <= i <= j,
        j < lines.len(),
    ensures
        scan_lines(lines, i, j + 1, st) == scan_line(scan_lines(lines, i, j, st), lines[j]),
    decreases j - i,
{
    if i < j {
        lemma_scan_snoc(lines, i + 1, j, scan_line(st, lines[i]));
    } else {
        assert(scan_lines(lines, j, j + 1, st) == scan_lines(
            lines,
            j + 1,
            j + 1,
            scan_line(st, lines[j]),
        ));
        assert(scan_lines(lines, j + 1, j + 1, scan_line(st, lines[j])) == scan_line(
            st,
            lines[j],
        ));
    }
}

/// The lines of a section's content, joined by single line breaks.
pub open spec fn joined_lines(ls: Seq<Seq<char>>) -> Seq<char>
    decreases ls.len(),
{
    if ls.len() == 0 {
        Seq::empty()
    } else if ls.len() == 1 {
        ls[0]
    } else {
        ls[0] + "\n"@ + joined_lines(ls.subrange(1, ls.len() as int))
    }
}

/// Joining one more line appends a break and the line.
proof fn lemma_joined_snoc(ls: Seq<Seq<char>>, l: Seq<char>)
    ensures
        joined_lines(ls.push(l)) == if ls.len() == 0 {
            l
        } else {
            joined_lines(ls) + "\n"@ + l
        },
    decreases ls.len(),
{
    if ls.len() == 0 {
        assert(ls.push(l) =~= seq![l]);
        assert(ls.push(l)[0] == l);
        assert(joined_lines(ls.push(l)) == l);
    } else if ls.len() == 1 {
        assert(ls.push(l)[0] == ls[0]);
        assert(ls.push(l).subrange(1, 2) =~= seq![l]);
        assert(joined_lines(seq![l]) == l);
        assert(joined_lines(ls.push(l)) == ls[0] + "\n"@ + joined_lines(ls.push(l).subrange(1, 2)));
        assert(joined_lines(ls) == ls[0]);
    } else {
        lemma_joined_snoc(ls.subrange(1, ls.len() as int), l);
        assert(ls.push(l).subrange(1, ls.len() as int + 1) =~= ls.subrange(
            1,
            ls.len() as int,
        ).push(l));
        assert(ls.push(l)[0] == ls[0]);
        assert(ls[0] + "\n"@ + (joined_lines(ls.subrange(1, ls.len() as int)) + "\n"@ + l) =~= (
        ls[0] + "\n"@ + joined_lines(ls.subrange(1, ls.len() as int))) + "\n"@ + l);
    }
}

/// The theater a finished scan denotes: nothing without a title or without
/// content; otherwise the metadata, with the summary defaulting to the
/// content's first twenty characters and then to the stock summary.
pub open spec fn finish_section(st: SectionScan) -> Option<TheaterView> {
    let content = trim_of(joined_lines(st.content));
    if st.title.len() == 0 {
        None
    } else if content.len() == 0 {
        None
    } else {
        let d1 = if st.desc.len() == 0 {
            content.take(
                if content.len() < 20 {
                    content.len() as int
                } else {
                    20
                },
            )
        } else {
            st.desc
        };
        let d2 = if d1.len() == 0 {
            default_desc()
        } else {
            d1
        };
        Some(TheaterView { title: st.title, category: st.category, desc: d2, content })
    }
}

/// The trimmed remainder of a line after its label.
fn tail_from(t: &String, n: usize) -> (r: String)
    ensures
        r@ == tail_after(t@, n as int),
{
    let len: usize = t.as_str().unicode_len();
    if len >= n {
        let rest = t.as_str().substring_char(n, len);
        proof {
            assert(rest@ =~= t@.skip(n as int));
        }
        trim_str(rest)
    } else {
        String::new()
    }
}

/// Joins content lines with single line breaks.
fn join_lines(ls: &Vec<String>) -> (r: String)
    ensures
        r@ == joined_lines(texts_view(ls@)),
{
    let mut r = String::new();
    let n: usize = ls.len();
    let mut i: usize = 0;
    proof {
        assert(texts_view(ls@).take(0) =~= Seq::<Seq<char>>::empty());
    }
    while i < n
        invariant
            i <= n,
            n == ls@.len(),
            r@ == joined_lines(texts_view(ls@).take(i as int)),
        decreases n - i,
    {
        proof {
            lemma_joined_snoc(texts_view(ls@).take(i as int), texts_view(ls@)[i as int]);
            assert(texts_view(ls@).take(i as int).push(texts_view(ls@)[i as int]) =~= texts_view(
                ls@,
            ).take(i + 1));
        }
        if i > 0 {
            r.append("\n");
        }
        r.append(ls[i].as_str());
        i = i + 1;
    }
    proof {
        assert(texts_view(ls@).take(n as int) =~= texts_view(ls@));
    }
    r
}

/// Reads one section out of `lines[start..end]`.
pub fn parse_section(lines: &Vec<String>, start: usize, end: usize) -> (r: Option<ParsedTheater>)
    requires
        start <= end <= lines@.len(),
    ensures
        match r {
            Some(p) => finish_section(
                scan_lines(texts_view(lines@), start as int, end as int, init_scan()),
            ) == Some(p@),
            None => finish_section(
                scan_lines(texts_view(lines@), start as int, end as int, init_scan()),
            ) is None,
        },
{
    let ghost lv = texts_view(lines@);
    let mut title: String = String::new();
    let mut category: String = "未分类".to_owned();
    let mut desc: String = String::new();
    let mut content_lines: Vec<String> = Vec::new();
    let mut in_content: bool = false;
    let mut found_title: bool = false;
    proof {
        assert(texts_view(content_lines@) =~= Seq::<Seq<char>>::empty());
    }
    let mut i: usize = start;
    while i < end
        invariant
            start <= i <= end,
            end <= lines@.len(),
            lv == texts_view(lines@),
            lv.len() == lines@.len(),
            ({
                let st = scan_lines(lv, start as int, i as int, init_scan());
                title@ == st.title && category@ == st.category && desc@ == st.desc && texts_view(
                    content_lines@,
                ) == st.content && in_content == st.in_content && found_title == st.found_title
            }),
        decreases end - i,
    {
        proof {
            lemma_scan_snoc(lv, start as int, i as int, init_scan());
            assert(lv[i as int] == lines@[i as int]@);
        }
        let t = trim_str(lines[i].as_str());
        let low = lowercase(t.as_str());
        if has_prefix(&low, "###") {
        } else if !in_content {
            if has_prefix(&low, "title:") {
                title = tail_from(&t, 6);
                found_title = true;
            } else if has_prefix(&low, "category:") {
                let c = tail_from(&t, 9);
                category = if c.as_str().is_empty() {
                    "未分类".to_owned()
                } else {
                    c
                };
            } else if has_prefix(&low, "desc:") {
                desc = tail_from(&t, 5);
            } else if found_title && t.as_str().is_empty() {
                in_content = true;
            } else if found_title {
                in_content = true;
                let ghost before = content_lines@;
                content_lines.push(copy_string(&lines[i]));
                proof {
                    assert(texts_view(content_lines@) =~= texts_view(before).push(lv[i as int]));
                }
            }
        } else {
            let ghost before = content_lines@;
            content_lines.push(copy_string(&lines[i]));
            proof {
                assert(texts_view(content_lines@) =~= texts_view(before).push(lv[i as int]));
            }
        }
        i = i + 1;
    }
    let joined = join_lines(&content_lines);
    let content = trim_str(joined.as_str());
    if title.as_str().is_empty() {
        return None;
    }
    if content.as_str().is_empty() {
        return None;
    }
    let d1: String = if desc.as_str().is_empty() {
        let clen: usize = content.as_str().unicode_len();
        let cut: usize = if clen < 20 {
            clen
        } else {
            20
        };
        let head = content.as_str().substring_char(0, cut).to_owned();
        proof {
            assert(head@ =~= content@.take(cut as int));
        }
        head
    } else {
        desc
    };
    let d2: String = if d1.as_str().is_empty() {
        "无简介".to_owned()
    } else {
        d1
    };
    Some(ParsedTheater { title, category, desc: d2, content })
}


/// True when a section starts at line `i`: a marker line directly followed
/// by a title line.
pub open spec fn is_section_start(lines: Seq<Seq<char>>, i: int) -> bool {
    &&& starts_with(lower_of(trim_of(lines[i])), "###"@)
    &&& i + 1 < lines.len()
    &&& starts_with(lower_of(trim_of(lines[i + 1])), "title:"@)
}

/// The indices of the section starts at or after line `i`, in order.
pub open spec fn section_starts_from(lines: Seq<Seq<char>>, i: int) -> Seq<int>
    decreases lines.len() - i,
{
    if i < 0 || i >= lines.len() {
        Seq::empty()
    } else if is_section_start(lines, i) {
        seq![i] + section_starts_from(lines, i + 1)
    } else {
        section_starts_from(lines, i + 1)
    }
}

/// Section starts lie in `[i, lines.len())` and are strictly increasing.
proof fn lemma_starts_bounds(lines: Seq<Seq<char>>, i: int)
    ensures
        forall|j: int|
            0 <= j < section_starts_from(lines, i).len() ==> i <= #[trigger] section_starts_from(
                lines,
                i,
            )[j] < lines.len(),
        forall|j: int|
            0 <= j && j + 1 < section_starts_from(lines, i).len() ==> #[trigger] section_starts_from(
                lines,
                i,
            )[j] < section_starts_from(lines, i)[j + 1],
    decreases lines.len() - i,
{
    if 0 <= i < lines.len() {
        lemma_starts_bounds(lines, i + 1);
        let rest = section_starts_from(lines, i + 1);
        let cur = section_starts_from(lines, i);
        if is_section_start(lines, i) {
            assert(cur == seq![i] + rest);
            assert forall|j: int| 0 <= j < cur.len() implies i <= #[trigger] cur[j]
                < lines.len() by {
                if j == 0 {
                    assert(cur[0] == i);
                } else {
                    assert(cur[j] == rest[j - 1]);
                }
            }
            assert forall|j: int| 0 <= j && j + 1 < cur.len() implies #[trigger] cur[j] < cur[j
                + 1] by {
                if j == 0 {
                    assert(cur[0] == i);
                    assert(cur[1] == rest[0]);
                } else {
                    assert(cur[j] == rest[j - 1]);
                    assert(cur[j + 1] == rest[j]);
                }
            }
        } else {
            assert(cur == rest);
        }
    }
}

/// The theaters of the sections from `starts[idx]` on: each section runs
/// to the next start, the last one to the end of the lines.
pub open spec fn spec_sections(
    lines: Seq<Seq<char>>,
    starts: Seq<int>,
    idx: int,
) -> Seq<TheaterView>
    decreases starts.len() - idx,
{
    if idx < 0 || idx >= starts.len() {
        Seq::empty()
    } else {
        let endp = if idx + 1 < starts.len() {
            starts[idx + 1]
        } else {
            lines.len() as int
        };
        let one = match finish_section(scan_lines(lines, starts[idx], endp, init_scan())) {
            Some(t) => seq![t],
            None => Seq::<TheaterView>::empty(),
        };
        one + spec_sections(lines, starts, idx + 1)
    }
}

/// The theaters a text denotes: its marked sections, or, when no section
/// marker is found, the whole text read as a single section.
pub open spec fn spec_parse_theaters(s: Seq<char>) -> Seq<TheaterView> {
    let lines = spec_lines(s);
    let starts = section_starts_from(lines, 0);
    if starts.len() == 0 {
        match finish_section(scan_lines(lines, 0, lines.len() as int, init_scan())) {
            Some(t) => seq![t],
            None => Seq::empty(),
        }
    } else {
        spec_sections(lines, starts, 0)
    }
}

/// The indices as mathematical integers.
pub open spec fn ints_view(s: Seq<usize>) -> Seq<int> {
    s.map_values(|u: usize| u as int)
}

/// Decides whether a section starts at line `i`.
fn is_start_at(lines: &Vec<String>, i: usize) -> (r: bool)
    requires
        i < lines@.len(),
    ensures
        r == is_section_start(texts_view(lines@), i as int),
{
    let n: usize = lines.len();
    let low = lowercase(trim_str(lines[i].as_str()).as_str());
    if !has_prefix(&low, "###") {
        return false;
    }
    if i + 1 >= n {
        return false;
    }
    let low2 = lowercase(trim_str(lines[i + 1].as_str()).as_str());
    has_prefix(&low2, "title:")
}

/// Reads every theater out of a text.
pub fn parse_theater_txt(content: &String) -> (r: Vec<ParsedTheater>)
    ensures
        theaters_view(r@) == spec_parse_theaters(content@),
{
    let lines = split_lines(content);
    let ghost lv = texts_view(lines@);
    let n: usize = lines.len();
    let mut starts: Vec<usize> = Vec::new();
    let mut i: usize = 0;
    proof {
        assert(ints_view(starts@) =~= Seq::<int>::empty());
        assert(Seq::<int>::empty() + section_starts_from(lv, 0) =~= section_starts_from(lv, 0));
    }
    while i < n
        invariant
            i <= n,
            n == lines@.len(),
            lv == texts_view(lines@),
            lv.len() == n,
            section_starts_from(lv, 0) == ints_view(starts@) + section_starts_from(lv, i as int),
            forall|j: int| 0 <= j < starts@.len() ==> #[trigger] starts@[j] < n,
        decreases n - i,
    {
        if is_start_at(&lines, i) {
            let ghost before = starts@;
            starts.push(i);
            proof {
                assert(ints_view(starts@) =~= ints_view(before).push(i as int));
                assert(ints_view(before) + (seq![i as int] + section_starts_from(lv, i + 1))
                    =~= ints_view(starts@) + section_starts_from(lv, i + 1));
            }
        }
        i = i + 1;
    }
    proof {
        assert(ints_view(starts@) + Seq::<int>::empty() =~= ints_view(starts@));
        assert(section_starts_from(lv, 0) == ints_view(starts@));
    }
    let ghost sv = section_starts_from(lv, 0);
    let mut out: Vec<ParsedTheater> = Vec::new();
    if starts.len() == 0 {
        match parse_section(&lines, 0, lines.len()) {
            Some(p) => {
                let ghost pv = p@;
                out.push(p);
                proof {
                    assert(theaters_view(out@) =~= seq![pv]);
                }
            },
            None => {
                proof {
                    assert(theaters_view(out@) =~= Seq::<TheaterView>::empty());
                }
            },
        }
        return out;
    }
    proof {
        lemma_starts_bounds(lv, 0);
        assert(theaters_view(out@) =~= Seq::<TheaterView>::empty());
        assert(Seq::<TheaterView>::empty() + spec_sections(lv, sv, 0) =~= spec_sections(
            lv,
            sv,
            0,
        ));
    }
    let m: usize = starts.len();
    let mut idx: usize = 0;
    while idx < m
        invariant
            idx <= m,
            m == starts@.len(),
            n == lines@.len(),
            lv == texts_view(lines@),
            lv.len() == n,
            sv == ints_view(starts@),
            sv == section_starts_from(lv, 0),
            forall|j: int| 0 <= j < starts@.len() ==> #[trigger] starts@[j] < n,
            forall|j: int| 0 <= j && j + 1 < sv.len() ==> #[trigger] sv[j] < sv[j + 1],
            spec_sections(lv, sv, 0) == theaters_view(out@) + spec_sections(lv, sv, idx as int),
        decreases m - idx,
    {
        let endp: usize = if idx + 1 < m {
            starts[idx + 1]
        } else {
            n
        };
        proof {
            assert(sv[idx as int] == starts@[idx as int] as int);
            if idx + 1 < m {
                assert(sv[idx as int] < sv[idx as int + 1]);
            }
        }
        let ghost one = match finish_section(
            scan_lines(lv, sv[idx as int], endp as int, init_scan()),
        ) {
            Some(t) => seq![t],
            None => Seq::<TheaterView>::empty(),
        };
        let ghost before = out@;
        match parse_section(&lines, starts[idx], endp) {
            Some(p) => {
                let ghost pv = p@;
                out.push(p);
                proof {
                    assert(theaters_view(out@) =~= theaters_view(before) + seq![pv]);
                    assert(one =~= seq![pv]);
                }
            },
            None => {
                proof {
                    assert(one =~= Seq::<TheaterView>::empty());
                    assert(theaters_view(out@) + one =~= theaters_view(out@));
                }
            },
        }
        proof {
            assert(spec_sections(lv, sv, idx as int) == one + spec_sections(lv, sv, idx + 1));
            assert(theaters_view(before) + (one + spec_sections(lv, sv, idx + 1)) =~= (
            theaters_view(before) + one) + spec_sections(lv, sv, idx + 1));
            assert(theaters_view(out@) =~= theaters_view(before) + one);
        }
        idx = idx + 1;
    }
    proof {
        assert(spec_sections(lv, sv, m as int) =~= Seq::<TheaterView>::empty());
        assert(theaters_view(out@) + Seq::<TheaterView>::empty() =~= theaters_view(out@));
    }
    out
}

/// The rendered text of one theater.
pub open spec fn spec_render_one(t: TheaterView) -> Seq<char> {
    "### Title\n"@ + "Title: "@ + t.title + "\n"@ + "Category: "@ + t.category + "\n"@
        + "Desc: "@ + t.desc + "\n"@ + "\n"@ + t.content + "\n"@
}

/// The rendered text of the theaters from index `idx` on, separated by
/// blank lines.
pub open spec fn spec_render_from(ts: Seq<TheaterView>, idx: int) -> Seq<char>
    decreases ts.len() - idx,
{
    if idx < 0 || idx >= ts.len() {
        Seq::empty()
    } else {
        let sep = if idx > 0 {
            "\n"@
        } else {
            Seq::<char>::empty()
        };
        sep + spec_render_one(ts[idx]) + spec_render_from(ts, idx + 1)
    }
}

/// Renders theaters into the export text format that
/// [`parse_theater_txt`] reads.
pub fn render_theaters_txt(items: &Vec<ParsedTheater>) -> (r: String)
    ensures
        r@ == spec_render_from(theaters_view(items@), 0),
{
    let ghost tv = theaters_view(items@);
    let mut r = String::new();
    let n: usize = items.len();
    let mut i: usize = 0;
    proof {
        assert(r@ + spec_render_from(tv, 0) =~= spec_render_from(tv, 0));
    }
    while i < n
        invariant
            i <= n,
            n == items@.len(),
            tv == theaters_view(items@),
            tv.len() == n,
            spec_render_from(tv, 0) == r@ + spec_render_from(tv, i as int),
        decreases n - i,
    {
        let ghost before = r@;
        if i > 0 {
            r.append("\n");
        }
        r.append("### Title\n");
        r.append("Title: ");
        r.append(items[i].title.as_str());
        r.append("\n");
        r.append("Category: ");
        r.append(items[i].category.as_str());
        r.append("\n");
        r.append("Desc: ");
        r.append(items[i].desc.as_str());
        r.append("\n");
        r.append("\n");
        r.append(items[i].content.as_str());
        r.append("\n");
        proof {
            assert(tv[i as int] == items@[i as int]@);
            let sep = if i > 0 {
                "\n"@
            } else {
                Seq::<char>::empty()
            };
            assert(r@ =~= before + (sep + spec_render_one(tv[i as int])));
            assert(before + ((sep + spec_render_one(tv[i as int])) + spec_render_from(
                tv,
                i + 1,
            )) =~= (before + (sep + spec_render_one(tv[i as int]))) + spec_render_from(tv, i + 1));
        }
        i = i + 1;
    }
    r
}


/// The resolved paging of a theater listing.
pub struct PageParams {
    pub page: u64,
    pub page_size: u64,
    pub offset: u64,
}

/// Resolves the paging of a listing request: the page defaults to one and
/// is at least one, the page size defaults to fifty and is capped at one
/// hundred, and the offset is their product, saturated at the integer
/// range.
pub fn clamp_page_params(page: Option<u64>, page_size: Option<u64>) -> (r: PageParams)
    ensures
        r.page == match page {
            Some(p) => if p < 1 {
                1u64
            } else {
                p
            },
            None => 1u64,
        },
        r.page_size == match page_size {
            Some(s) => if s > 100 {
                100u64
            } else {
                s
            },
            None => 50u64,
        },
        r.offset == if (r.page - 1) * r.page_size <= u64::MAX {
            ((r.page - 1) * r.page_size) as u64
        } else {
            u64::MAX
        },
{
    let p: u64 = match page {
        Some(p) => if p < 1 {
            1
        } else {
            p
        },
        None => 1,
    };
    let s: u64 = match page_size {
        Some(s) => if s > 100 {
            100
        } else {
            s
        },
        None => 50,
    };
    let offset: u64 = match (p - 1).checked_mul(s) {
        Some(o) => o,
        None => u64::MAX,
    };
    PageParams { page: p, page_size: s, offset }
}

/// The number of pages that hold `total` items at `page_size` per page:
/// the quotient, plus one for a partial final page.
pub fn total_pages(total: u64, page_size: u64) -> (r: u64)
    requires
        page_size >= 1,
    ensures
        r == total / page_size + if total % page_size == 0 {
            0u64
        } else {
            1u64
        },
{
    let q: u64 = total / page_size;
    if total % page_size == 0 {
        q
    } else {
        proof {
            vstd::arithmetic::div_mod::lemma_fundamental_div_mod(
                total as int,
                page_size as int,
            );
            assert(q < u64::MAX) by (nonlinear_arith)
                requires
                    total as int == page_size as int * (q as int) + (total as int) % (
                    page_size as int),
                    (total as int) % (page_size as int) >= 1,
                    page_size >= 1,
                    total <= u64::MAX,
            ;
        }
        q + 1
    }
}

} // verus!
