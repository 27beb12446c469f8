//! Transcription with whisper: its command line, the conversion of its
//! console output to SRT, and the language it reports.
use vstd::prelude::*;

use crate::config::WhisperConfig;
use crate::error::SubsForgeError;
use crate::naming::{path_with_extension, with_extension};
use crate::pipeline::srt::{
    entries_view, has_arrow, lemma_serialize_parse_roundtrip, parse_spec, serialize, serialize_spec,
    wf_entry, wf_text, EntryView, SubtitleEntry,
};
use crate::text::{
    chars_of, end_non_ws, ends_cr, first_non_ws, head, index_in, index_of, is_whitespace,
    is_ws, lemma_end_non_ws, lemma_first_non_ws, lemma_index_of, lemma_lines_no_nl, lemma_nl_index,
    lemma_trim_empty, lemma_trim_idempotent, lemma_trim_sub, lines, nl_index, no_nl, pieces,
    split_lines, str_eq, string_of, string_views, tail, trim, trimmed, views,
};

verus! {

/// What a transcription produced: SRT content and, if whisper reported it,
/// the language it detected.
pub struct WhisperResult {
    pub srt_content: String,
    pub detected_language: Option<String>,
}

/// `s` with every `'.'` replaced by `','`.
pub open spec fn dots_to_commas(s: Seq<char>) -> Seq<char> {
    s.map_values(|c: char| if c == '.' { ',' } else { c })
}

/// The subtitle that a line of whisper's console output stands for, as
/// (timing, text): a trimmed line `[timing] text` with non-blank text; the
/// timing's decimal points become commas, as SRT writes them.
pub open spec fn line_entry(line: Seq<char>) -> Option<(Seq<char>, Seq<char>)> {
    let l = trim(line);
    if l.len() > 0 && l[0] == '[' {
        let rest = l.skip(1);
        let k = index_of(rest, ']', 0);
        if k < rest.len() {
            let text = trim(rest.skip(k + 1));
            if text.len() > 0 {
                Some((dots_to_commas(rest.take(k)), text))
            } else {
                None
            }
        } else {
            None
        }
    } else {
        None
    }
}

/// The subtitles of the console output lines `ls`, in order.
pub open spec fn converted(ls: Seq<Seq<char>>) -> Seq<(Seq<char>, Seq<char>)>
    decreases ls.len(),
{
    if ls.len() == 0 {
        Seq::empty()
    } else {
        converted(ls.drop_last()) + match line_entry(ls.last()) {
            Some(x) => seq![x],
            None => Seq::empty(),
        }
    }
}

/// Subtitles numbered from 1.
pub open spec fn numbered(cs: Seq<(Seq<char>, Seq<char>)>) -> Seq<EntryView> {
    Seq::new(
        cs.len(),
        |k: int| EntryView { sequence: (k + 1) as u32, timestamp: cs[k].0, text: cs[k].1 },
    )
}

/// The SRT content that whisper's console output stands for.
pub open spec fn stdout_srt_spec(stdout: Seq<char>) -> Seq<char> {
    serialize_spec(numbered(converted(lines(stdout))))
}

proof fn lemma_converted_len(ls: Seq<Seq<char>>)
    ensures
        converted(ls).len() <= ls.len(),
    decreases ls.len(),
{
    if ls.len() > 0 {
        lemma_converted_len(ls.drop_last());
    }
}

/// What a console line converts to, in terms of the trimmed line: the
/// line is `[`, the timing's characters, `]`, then the text. The timing holds
/// no `]`, and its characters are those of the line with each `.` turned into
/// `,`; the text is the rest of the line after that first `]`, trimmed and
/// otherwise unchanged.
pub proof fn lemma_line_entry_parts(line: Seq<char>)
    ensures
        line_entry(line) matches Some(x) ==> x.0.len() + 2 <= trim(line).len(),
        line_entry(line) matches Some(x) ==> trim(line)[0] == '[',
        line_entry(line) matches Some(x) ==> trim(line)[x.0.len() + 1int] == ']',
        line_entry(line) matches Some(x) ==> forall|j: int|
            0 <= j < x.0.len() ==> #[trigger] trim(line)[j + 1] != ']',
        line_entry(line) matches Some(x) ==> forall|j: int|
            0 <= j < x.0.len() && trim(line)[j + 1] == '.' ==> #[trigger] x.0[j] == ',',
        line_entry(line) matches Some(x) ==> forall|j: int|
            0 <= j < x.0.len() && trim(line)[j + 1] != '.' ==> #[trigger] x.0[j] == trim(line)[j + 1],
        line_entry(line) matches Some(x) ==> x.1 == trim(trim(line).skip(x.0.len() + 2int)),
        line_entry(line) matches Some(x) ==> x.1.len() > 0,
{
    let l = trim(line);
    if l.len() > 0 && l[0] == '[' {
        let rest = l.skip(1);
        let k = index_of(rest, ']', 0);
        lemma_index_of(rest, ']', 0);
        if k < rest.len() {
            assert(rest.skip(k + 1) =~= l.skip(k + 2));
            let ts = dots_to_commas(rest.take(k));
            assert(ts.len() == k);
            assert forall|j: int| 0 <= j < k implies #[trigger] ts[j] == (if rest[j] == '.' {
                ','
            } else {
                rest[j]
            }) && rest[j] == l[j + 1] && rest[j] != ']' by {
                assert(rest.take(k)[j] == rest[j]);
            }
            assert(rest[k] == l[k + 1]);
            assert forall|j: int| 0 <= j < k implies #[trigger] l[j + 1] != ']' by {
                assert(rest[j] == l[j + 1]);
                assert(rest[j] != ']');
            }
        }
    }
}

/// Trimming keeps a text free of newlines.
proof fn lemma_trim_no_nl(x: Seq<char>)
    requires
        no_nl(x),
    ensures
        no_nl(trim(x)),
{
    lemma_trim_sub(x);
    assert forall|k: int| 0 <= k < trim(x).len() implies #[trigger] trim(x)[k] != '\n' by {
        let m = choose|m: int| 0 <= m < x.len() && x[m] == trim(x)[k];
        assert(x[m] != '\n');
    }
}

/// What a line without newlines converts to: a timing and a non-empty,
/// trimmed text, both without newlines.
proof fn lemma_line_entry(line: Seq<char>)
    requires
        no_nl(line),
    ensures
        line_entry(line) matches Some(x) ==> {
            &&& no_nl(x.0)
            &&& no_nl(x.1)
            &&& x.1.len() > 0
            &&& trim(x.1) == x.1
        },
{
    let l = trim(line);
    lemma_trim_no_nl(line);
    if l.len() > 0 && l[0] == '[' {
        let rest = l.skip(1);
        let k = index_of(rest, ']', 0);
        lemma_index_of(rest, ']', 0);
        assert(no_nl(rest)) by {
            assert forall|m: int| 0 <= m < rest.len() implies #[trigger] rest[m] != '\n' by {
                assert(rest[m] == l[m + 1]);
            }
        }
        if k < rest.len() {
            let after = rest.skip(k + 1);
            assert(no_nl(after)) by {
                assert forall|m: int| 0 <= m < after.len() implies #[trigger] after[m] != '\n' by {
                    assert(after[m] == rest[m + k + 1]);
                }
            }
            lemma_trim_no_nl(after);
            lemma_trim_idempotent(after);
            let ts = dots_to_commas(rest.take(k));
            assert forall|m: int| 0 <= m < ts.len() implies #[trigger] ts[m] != '\n' by {
                assert(rest.take(k)[m] == rest[m]);
            }
        }
    }
}

/// Every subtitle converted from lines without newlines has a timing and a
/// non-empty, trimmed text, both without newlines.
proof fn lemma_converted_wf(ls: Seq<Seq<char>>)
    requires
        forall|j: int| 0 <= j < ls.len() ==> no_nl(#[trigger] ls[j]),
    ensures
        forall|k: int| 0 <= k < converted(ls).len() ==> {
            &&& no_nl((#[trigger] converted(ls)[k]).0)
            &&& no_nl(converted(ls)[k].1)
            &&& converted(ls)[k].1.len() > 0
            &&& trim(converted(ls)[k].1) == converted(ls)[k].1
        },
    decreases ls.len(),
{
    if ls.len() > 0 {
        let init = ls.drop_last();
        assert forall|j: int| 0 <= j < init.len() implies no_nl(#[trigger] init[j]) by {
            assert(init[j] == ls[j]);
        }
        lemma_converted_wf(init);
        lemma_line_entry(ls.last());
        let c = converted(ls);
        let ci = converted(init);
        assert forall|k: int| 0 <= k < c.len() implies {
            &&& no_nl((#[trigger] c[k]).0)
            &&& no_nl(c[k].1)
            &&& c[k].1.len() > 0
            &&& trim(c[k].1) == c[k].1
        } by {
            if k < ci.len() {
                assert(c[k] == ci[k]);
            } else {
                assert(line_entry(ls.last()) matches Some(x) && c[k] == x);
            }
        }
    }
}

/// A single-line, trimmed, non-empty text is a well-formed subtitle text.
proof fn lemma_single_line_text(t: Seq<char>)
    requires
        no_nl(t),
        t.len() > 0,
        trim(t) == t,
    ensures
        wf_text(t),
{
    lemma_nl_index(t, 0);
    assert(nl_index(t, 0) == t.len());
    assert(t.subrange(0, t.len() as int) =~= t);
    assert(pieces(t) == seq![t]);
    lemma_trim_empty(t);
    lemma_first_non_ws(t, 0);
    lemma_end_non_ws(t, t.len() as int);
    assert(!ends_cr(t)) by {
        assert(end_non_ws(t, t.len() as int) == t.len());
        assert(!is_ws(t[t.len() - 1]));
    }
}

/// The SRT that whisper's console output converts to is read back by `parse`
/// as the numbered subtitles, when there is at least one subtitle and every
/// timing holds `-->` and has no surrounding whitespace.
pub proof fn lemma_stdout_srt_parses(stdout: Seq<char>)
    requires
        converted(lines(stdout)).len() > 0,
        forall|k: int|
            0 <= k < converted(lines(stdout)).len() ==> {
                &&& has_arrow((#[trigger] converted(lines(stdout))[k]).0)
                &&& trim(converted(lines(stdout))[k].0) == converted(lines(stdout))[k].0
            },
    ensures
        parse_spec(stdout_srt_spec(stdout)) == Ok::<Seq<EntryView>, Seq<char>>(
            numbered(converted(lines(stdout))),
        ),
{
    let cs = converted(lines(stdout));
    lemma_lines_no_nl(stdout, 0);
    lemma_converted_wf(lines(stdout));
    let es = numbered(cs);
    assert forall|i: int| 0 <= i < es.len() implies wf_entry(#[trigger] es[i]) by {
        assert(es[i].timestamp == cs[i].0);
        assert(es[i].text == cs[i].1);
        lemma_single_line_text(cs[i].1);
    }
    lemma_serialize_parse_roundtrip(es);
}

fn line_subtitle(line: &[char]) -> (r: Option<(String, String)>)
    ensures
        match r {
            Some((a, b)) => line_entry(line@) == Some((a@, b@)),
            None => line_entry(line@) is None,
        },
{
    let l = trimmed(line);
    if l.len() > 0 && l[0] == '[' {
        let ghost rest = l@.skip(1);
        let k = index_in(l.as_slice(), ']', 1);
        proof {
            lemma_index_of(l@, ']', 1);
            lemma_index_of(rest, ']', 0);
            assert forall|m: int| 0 <= m < rest.len() implies rest[m] == l@[m + 1] by {}
            if index_of(rest, ']', 0) + 1 < k {
                assert(l@[index_of(rest, ']', 0) + 1] == ']');
            }
            if k < index_of(rest, ']', 0) + 1 && k < l@.len() {
                assert(rest[k - 1] == ']');
            }
            assert(index_of(rest, ']', 0) == k - 1);
        }
        if k < l.len() {
            let mut after: Vec<char> = Vec::new();
            for m in k + 1..l.len()
                invariant
                    k < l@.len(),
                    after@ == l@.subrange(k + 1, m as int),
            {
                after.push(l[m]);
                assert(l@.subrange(k + 1, m + 1) == l@.subrange(k + 1, m as int).push(l@[m as int]));
            }
            assert(after@ =~= rest.skip(k as int));
            let text = trimmed(after.as_slice());
            if text.len() > 0 {
                let mut ts: Vec<char> = Vec::new();
                for m in 1..k
                    invariant
                        1 <= k <= l@.len(),
                        ts@ == dots_to_commas(l@.subrange(1, m as int)),
                {
                    let c = l[m];
                    ts.push(if c == '.' { ',' } else { c });
                    assert(dots_to_commas(l@.subrange(1, m + 1)) =~= dots_to_commas(l@.subrange(1, m as int)).push(if c == '.' { ',' } else { c }));
                }
                assert(l@.subrange(1, k as int) =~= rest.take(k - 1));
                return Some((string_of(ts.as_slice()), string_of(text.as_slice())));
            }
        }
    }
    None
}

proof fn lemma_converted_prefix(ls: Seq<Seq<char>>, i: int)
    requires
        0 <= i <= ls.len(),
    ensures
        converted(ls.take(i)).len() <= converted(ls).len(),
    decreases ls.len(),
{
    if i < ls.len() {
        lemma_converted_prefix(ls.drop_last(), i);
        assert(ls.drop_last().take(i) == ls.take(i));
    } else {
        assert(ls.take(i) == ls);
    }
}

/// How many subtitles whisper's console output stands for (see `stdout_to_srt`).
pub fn subtitle_count(stdout: &str) -> (r: usize)
    ensures
        r == converted(lines(stdout@)).len(),
{
    let cs = chars_of(stdout);
    let ls = split_lines(cs.as_slice());
    let ghost lv = views(ls@);
    let mut count: usize = 0;
    for i in 0..ls.len()
        invariant
            lv == views(ls@),
            count == converted(lv.take(i as int)).len(),
    {
        let ghost before = lv.take(i as int);
        assert(lv.take(i + 1).drop_last() == before);
        assert(lv.take(i + 1).last() == ls@[i as int]@);
        proof {
            lemma_converted_len(before);
        }
        if line_subtitle(ls[i].as_slice()).is_some() {
            count = count + 1;
        }
    }
    assert(lv.take(ls@.len() as int) =~= lv);
    count
}

/// Converts whisper's console output, lines of the form
/// `[HH:MM:SS.mmm --> HH:MM:SS.mmm] text`, to SRT content numbered from 1.
/// Other lines, and lines with blank text, are skipped. The numbers are
/// `u32`s, so the output must stand for fewer than `u32::MAX` subtitles.
pub fn stdout_to_srt(stdout: &str) -> (r: String)
    requires
        converted(lines(stdout@)).len() < u32::MAX,
    ensures
        r@ == stdout_srt_spec(stdout@),
{
    let cs = chars_of(stdout);
    let ls = split_lines(cs.as_slice());
    let ghost lv = views(ls@);
    let mut entries: Vec<SubtitleEntry> = Vec::new();
    let mut seq: u32 = 1;
    for i in 0..ls.len()
        invariant
            lv == views(ls@),
            lv == lines(stdout@),
            converted(lv).len() < u32::MAX,
            entries_view(entries@) == numbered(converted(lv.take(i as int))),
            seq == entries@.len() + 1,
    {
        let ghost before = lv.take(i as int);
        assert(lv.take(i + 1).drop_last() == before);
        assert(lv.take(i + 1).last() == ls@[i as int]@);
        proof {
            lemma_converted_prefix(lv, i + 1);
        }
        match line_subtitle(ls[i].as_slice()) {
            Some((ts, text)) => {
                let ghost prev = entries_view(entries@);
                entries.push(SubtitleEntry { sequence: seq, timestamp: ts, text });
                assert(entries_view(entries@) =~= prev.push(entries@[entries@.len() - 1]@));
                assert(entries_view(entries@) =~= numbered(converted(lv.take(i + 1))));
                seq = seq + 1;
            },
            None => {
                assert(converted(lv.take(i + 1)) =~= converted(before));
            },
        }
    }
    assert(lv.take(ls@.len() as int) =~= lv);
    serialize(entries.as_slice())
}

/// Index of the first occurrence of `p` in `s` at or after `i`.
pub open spec fn find_from(s: Seq<char>, p: Seq<char>, i: int) -> Option<int>
    decreases s.len() + 1 - i,
{
    if i < 0 || i > s.len() || i + p.len() > s.len() {
        None
    } else if s.subrange(i, i + p.len()) == p {
        Some(i)
    } else {
        find_from(s, p, i + 1)
    }
}

fn find_in(s: &[char], p: &[char]) -> (r: Option<usize>)
    requires
        p@.len() > 0,
    ensures
        match r {
            Some(i) => find_from(s@, p@, 0) == Some(i as int),
            None => find_from(s@, p@, 0) is None,
        },
{
    if p.len() > s.len() {
        return None;
    }
    let n = s.len();
    let last = n - p.len();
    let mut i: usize = 0;
    while i <= last
        invariant
            n == s@.len(),
            p@.len() > 0,
            last + p@.len() == s@.len(),
            i <= last + 1,
            find_from(s@, p@, 0) == find_from(s@, p@, i as int),
        decreases last + 1 - i,
    {
        let mut matched = true;
        let mut k: usize = 0;
        while k < p.len()
            invariant
                i <= last,
                n == s@.len(),
                last + p@.len() == s@.len(),
                k <= p@.len(),
                matched == (forall|m: int| 0 <= m < k ==> s@[i + m] == p@[m]),
            decreases p@.len() - k,
        {
            assert(i + k < n);
            matched = matched && s[i + k] == p[k];
            k = k + 1;
        }
        if matched {
            assert(s@.subrange(i as int, i + p@.len()) =~= p@);
            return Some(i);
        }
        proof {
            assert(s@.subrange(i as int, i + p@.len()) != p@) by {
                let w = choose|m: int| 0 <= m < p@.len() && s@[i + m] != p@[m];
                assert(s@.subrange(i as int, i + p@.len())[w] != p@[w]);
            }
        }
        i = i + 1;
    }
    None
}

/// The first word of `s` (`split_whitespace().next()`), if it has one.
pub open spec fn first_word(s: Seq<char>) -> Option<Seq<char>> {
    let a = first_non_ws(s, 0);
    if a >= s.len() {
        None
    } else {
        Some(s.subrange(a, word_end(s, a)))
    }
}

/// Index of the first whitespace character at or after `i`, or `s.len()`.
pub open spec fn word_end(s: Seq<char>, i: int) -> int
    decreases s.len() - i,
{
    if i < 0 || i >= s.len() {
        s.len() as int
    } else if is_ws(s[i]) {
        i
    } else {
        word_end(s, i + 1)
    }
}

proof fn lemma_word_end(s: Seq<char>, i: int)
    requires
        0 <= i <= s.len(),
    ensures
        i <= word_end(s, i) <= s.len(),
    decreases s.len() - i,
{
    if i < s.len() && !is_ws(s[i]) {
        lemma_word_end(s, i + 1);
    }
}

/// The language a line of whisper's diagnostics reports: the word after
/// `auto-detected language: `, or else the trimmed text between `lang = ` and
/// the next comma, when not blank.
pub open spec fn line_language(line: Seq<char>) -> Option<Seq<char>> {
    let auto = "auto-detected language: "@;
    let tag = "lang = "@;
    let from_auto = match find_from(line, auto, 0) {
        Some(i) => first_word(line.skip(i + auto.len())),
        None => None,
    };
    if from_auto is Some {
        from_auto
    } else {
        match find_from(line, tag, 0) {
            Some(i) => {
                let part = line.skip(i + tag.len());
                let lang = trim(part.take(index_of(part, ',', 0)));
                if lang.len() > 0 {
                    Some(lang)
                } else {
                    None
                }
            },
            None => None,
        }
    }
}

/// The language reported by the first line, from index `i` on, that reports one.
pub open spec fn language_from(ls: Seq<Seq<char>>, i: int) -> Option<Seq<char>>
    decreases ls.len() - i,
{
    if i < 0 || i >= ls.len() {
        None
    } else {
        match line_language(ls[i]) {
            Some(l) => Some(l),
            None => language_from(ls, i + 1),
        }
    }
}

fn first_word_of(s: &[char]) -> (r: Option<String>)
    ensures
        match r {
            Some(w) => first_word(s@) == Some(w@),
            None => first_word(s@) is None,
        },
{
    let mut a: usize = 0;
    while a < s.len() && is_whitespace(s[a])
        invariant
            a <= s@.len(),
            first_non_ws(s@, 0) == first_non_ws(s@, a as int),
        decreases s@.len() - a,
    {
        a = a + 1;
    }
    if a >= s.len() {
        return None;
    }
    let mut b = a;
    let mut w: Vec<char> = Vec::new();
    while b < s.len() && !is_whitespace(s[b])
        invariant
            a <= b <= s@.len(),
            word_end(s@, a as int) == word_end(s@, b as int),
            w@ == s@.subrange(a as int, b as int),
        decreases s@.len() - b,
    {
        w.push(s[b]);
        assert(s@.subrange(a as int, b + 1) == s@.subrange(a as int, b as int).push(s@[b as int]));
        b = b + 1;
    }
    Some(string_of(w.as_slice()))
}

fn language_of_line(line: &[char], auto: &[char], tag: &[char]) -> (r: Option<String>)
    requires
        auto@ == "auto-detected language: "@,
        tag@ == "lang = "@,
        auto@.len() > 0,
        tag@.len() > 0,
    ensures
        match r {
            Some(l) => line_language(line@) == Some(l@),
            None => line_language(line@) is None,
        },
{
    match find_in(line, auto) {
        Some(i) => {
            proof {
                lemma_first_non_ws(line@, 0);
            }
            assert(i + auto@.len() <= line.len()) by {
                lemma_find_bounds(line@, auto@, 0);
            }
            let rest = tail(line, i + auto.len());
            match first_word_of(rest.as_slice()) {
                Some(w) => {
                    return Some(w);
                },
                None => {},
            }
        },
        None => {},
    }
    match find_in(line, tag) {
        Some(i) => {
            assert(i + tag@.len() <= line.len()) by {
                lemma_find_bounds(line@, tag@, 0);
            }
            let part = tail(line, i + tag.len());
            let c = index_in(part.as_slice(), ',', 0);
            proof {
                lemma_index_of(part@, ',', 0);
            }
            let before = head(part.as_slice(), c);
            let lang = trimmed(before.as_slice());
            if lang.len() > 0 {
                Some(string_of(lang.as_slice()))
            } else {
                None
            }
        },
        None => None,
    }
}

proof fn lemma_find_bounds(s: Seq<char>, p: Seq<char>, i: int)
    requires
        0 <= i,
    ensures
        find_from(s, p, i) matches Some(k) ==> i <= k && k + p.len() <= s.len(),
    decreases s.len() + 1 - i,
{
    if i <= s.len() && i + p.len() <= s.len() && s.subrange(i, i + p.len()) != p {
        lemma_find_bounds(s, p, i + 1);
    }
}

/// The language whisper reports in its diagnostics output, if any: from the
/// first line that mentions `auto-detected language: ` followed by a word, or
/// `lang = ` followed by a non-blank value before the next comma.
pub fn parse_detected_language(stderr: &str) -> (r: Option<String>)
    ensures
        match r {
            Some(l) => language_from(lines(stderr@), 0) == Some(l@),
            None => language_from(lines(stderr@), 0) is None,
        },
{
    let cs = chars_of(stderr);
    let ls = split_lines(cs.as_slice());
    let ghost lv = views(ls@);
    let auto = chars_of("auto-detected language: ");
    let tag = chars_of("lang = ");
    proof {
        reveal_strlit("auto-detected language: ");
        reveal_strlit("lang = ");
    }
    for i in 0..ls.len()
        invariant
            lv == views(ls@),
            lv == lines(stderr@),
            auto@ == "auto-detected language: "@,
            tag@ == "lang = "@,
            auto@.len() > 0,
            tag@.len() > 0,
            language_from(lv, 0) == language_from(lv, i as int),
    {
        assert(lv[i as int] == ls@[i as int]@);
        match language_of_line(ls[i].as_slice(), auto.as_slice(), tag.as_slice()) {
            Some(l) => {
                return Some(l);
            },
            None => {},
        }
    }
    None
}

/// The arguments whisper is run with: model, input file, SRT output, the
/// language unless it is `auto`, then the extra arguments of the configuration.
pub open spec fn whisper_args_spec(config: WhisperConfig, audio_path: Seq<char>) -> Seq<Seq<char>> {
    seq!["-m"@, config.model@, "-f"@, audio_path, "--output-srt"@] + (if config.language@ != "auto"@ {
        seq!["-l"@, config.language@]
    } else {
        Seq::empty()
    }) + string_views(config.extra_args@)
}

/// The command-line arguments for transcribing `audio_path`.
pub fn whisper_args(config: &WhisperConfig, audio_path: &str) -> (r: Vec<String>)
    ensures
        string_views(r@) == whisper_args_spec(*config, audio_path@),
{
    let mut args: Vec<String> = Vec::new();
    args.push(String::from_str("-m"));
    args.push(config.model.clone());
    args.push(String::from_str("-f"));
    args.push(String::from_str(audio_path));
    args.push(String::from_str("--output-srt"));
    if !str_eq(config.language.as_str(), "auto") {
        args.push(String::from_str("-l"));
        args.push(config.language.clone());
    }
    let ghost fixed = string_views(args@);
    let n = config.extra_args.len();
    for i in 0..n
        invariant
            n == config.extra_args@.len(),
            string_views(args@) == fixed + string_views(config.extra_args@.take(i as int)),
    {
        let ghost before = string_views(args@);
        args.push(config.extra_args[i].clone());
        assert(string_views(args@) =~= before.push(config.extra_args@[i as int]@));
        assert(string_views(config.extra_args@.take(i + 1)) =~= string_views(config.extra_args@.take(i as int)).push(config.extra_args@[i as int]@));
        assert(fixed + string_views(config.extra_args@.take(i + 1)) =~= before.push(config.extra_args@[i as int]@));
    }
    assert(config.extra_args@.take(n as int) =~= config.extra_args@);
    assert(string_views(args@) =~= whisper_args_spec(*config, audio_path@));
    args
}

/// Where whisper writes the SRT for `audio_path`: the path with extension `wav.srt`.
pub fn whisper_srt_path(audio_path: &str) -> (r: String)
    ensures
        r@ == path_with_extension(audio_path@, "wav.srt"@),
{
    proof {
        reveal_strlit("wav.srt");
    }
    with_extension(audio_path, "wav.srt")
}

/// What a finished whisper run yields: its diagnostics as the error if it
/// failed; otherwise the SRT it wrote (`srt_file`) or, without one, the SRT
/// converted from its console output, and the language it reported.
pub fn transcription_result(success: bool, srt_file: Option<String>, stdout: &str, stderr: &str) -> (r: Result<
    WhisperResult,
    SubsForgeError,
>)
    requires
        success && srt_file is None ==> converted(lines(stdout@)).len() < u32::MAX,
    ensures
        !success ==> (r matches Err(e) && e matches SubsForgeError::Whisper(m) && m@ == stderr@),
        success ==> (r matches Ok(w) && w.srt_content@ == match srt_file {
            Some(c) => c@,
            None => stdout_srt_spec(stdout@),
        } && match w.detected_language {
            Some(l) => language_from(lines(stderr@), 0) == Some(l@),
            None => language_from(lines(stderr@), 0) is None,
        }),
{
    if !success {
        return Err(SubsForgeError::Whisper(String::from_str(stderr)));
    }
    let srt_content = match srt_file {
        Some(c) => c,
        None => stdout_to_srt(stdout),
    };
    let detected_language = parse_detected_language(stderr);
    Ok(WhisperResult { srt_content, detected_language })
}

} // verus!
