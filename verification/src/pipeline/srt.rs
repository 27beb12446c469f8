//! The SRT subtitle format: parsing, serialization and text replacement.
use vstd::prelude::*;

use crate::error::SubsForgeError;
use crate::text::{
    blank, chars_of, dec, decimal, decimal_string, ends_cr, extend_chars, is_blank, is_digit, is_ws,
    join, lemma_dec_digits, lemma_end_non_ws, lemma_first_non_ws, lemma_join_pieces,
    lemma_join_push, lemma_lines_append, lemma_lines_are_pieces, lemma_lines_no_nl,
    lemma_lines_single, lemma_parse_dec, lemma_pieces_empty, lemma_pieces_nonempty,
    lemma_pieces_of_join, lemma_trim_empty, lemma_trim_fixed, lemma_trim_idempotent, lemma_trim_sub,
    lines, no_nl, parse_u32, parse_u32_spec, pieces, split_lines, string_of, string_views, strip_cr,
    trim, trimmed, views,
};

verus! {

/// One subtitle: its number, its timing line and its text (lines joined by `'\n'`).
#[derive(Debug, Clone)]
pub struct SubtitleEntry {
    pub sequence: u32,
    pub timestamp: String,
    pub text: String,
}

/// A subtitle as a mathematical value.
pub struct EntryView {
    pub sequence: u32,
    pub timestamp: Seq<char>,
    pub text: Seq<char>,
}

impl View for SubtitleEntry {
    type V = EntryView;

    open spec fn view(&self) -> EntryView {
        EntryView { sequence: self.sequence, timestamp: self.timestamp@, text: self.text@ }
    }
}

pub open spec fn entries_view(es: Seq<SubtitleEntry>) -> Seq<EntryView> {
    es.map_values(|e: SubtitleEntry| e@)
}

/// Index of the first non-blank line at or after `i`, or `ls.len()`.
pub open spec fn first_nonblank(ls: Seq<Seq<char>>, i: int) -> int
    decreases ls.len() - i,
{
    if i < 0 || i >= ls.len() {
        ls.len() as int
    } else if !is_blank(ls[i]) {
        i
    } else {
        first_nonblank(ls, i + 1)
    }
}

/// Index of the first blank line at or after `i`, or `ls.len()`.
pub open spec fn text_end(ls: Seq<Seq<char>>, i: int) -> int
    decreases ls.len() - i,
{
    if i < 0 || i >= ls.len() {
        ls.len() as int
    } else if is_blank(ls[i]) {
        i
    } else {
        text_end(ls, i + 1)
    }
}

pub proof fn lemma_first_nonblank(ls: Seq<Seq<char>>, i: int)
    requires
        0 <= i <= ls.len(),
    ensures
        i <= first_nonblank(ls, i) <= ls.len(),
        forall|k: int| i <= k < first_nonblank(ls, i) ==> is_blank(#[trigger] ls[k]),
        first_nonblank(ls, i) < ls.len() ==> !is_blank(ls[first_nonblank(ls, i)]),
    decreases ls.len() - i,
{
    if i < ls.len() && is_blank(ls[i]) {
        lemma_first_nonblank(ls, i + 1);
    }
}

pub proof fn lemma_text_end(ls: Seq<Seq<char>>, i: int)
    requires
        0 <= i <= ls.len(),
    ensures
        i <= text_end(ls, i) <= ls.len(),
        forall|k: int| i <= k < text_end(ls, i) ==> !is_blank(#[trigger] ls[k]),
        text_end(ls, i) < ls.len() ==> is_blank(ls[text_end(ls, i)]),
    decreases ls.len() - i,
{
    if i < ls.len() && !is_blank(ls[i]) {
        lemma_text_end(ls, i + 1);
    }
}

/// `s` holds `-->` at index `k`.
pub open spec fn arrow_at(s: Seq<char>, k: int) -> bool {
    0 <= k && k + 3 <= s.len() && s[k] == '-' && s[k + 1] == '-' && s[k + 2] == '>'
}

/// `s` contains `-->`.
pub open spec fn has_arrow(s: Seq<char>) -> bool {
    exists|k: int| #[trigger] arrow_at(s, k)
}

/// The entries of the lines of `ls` from index `i` on, or the message of the
/// first parse error.
pub open spec fn parse_from(ls: Seq<Seq<char>>, i: int) -> Result<Seq<EntryView>, Seq<char>>
    decreases ls.len() - i,
{
    if i < 0 || i >= ls.len() {
        Ok(Seq::empty())
    } else {
        let j = first_nonblank(ls, i);
        if j >= ls.len() {
            Ok(Seq::empty())
        } else {
            let seq_line = trim(ls[j]);
            match parse_u32_spec(seq_line) {
                None => Err("invalid sequence number: "@ + seq_line),
                Some(n) => {
                    if j + 1 >= ls.len() {
                        Err("unexpected end: expected timestamp"@)
                    } else {
                        let ts = trim(ls[j + 1]);
                        if !has_arrow(ts) {
                            Err("invalid timestamp: "@ + ts)
                        } else {
                            proof {
                                lemma_first_nonblank(ls, i);
                                lemma_text_end(ls, j + 2);
                            }
                            let k = text_end(ls, j + 2);
                            let e = EntryView {
                                sequence: n,
                                timestamp: ts,
                                text: join(ls.subrange(j + 2, k), seq!['\n']),
                            };
                            match parse_from(ls, k) {
                                Ok(rest) => Ok(seq![e] + rest),
                                Err(m) => Err(m),
                            }
                        }
                    }
                },
            }
        }
    }
}

/// What `parse` gives for `content`: the entries, or the message of the
/// `SrtParse` error.
pub open spec fn parse_spec(content: Seq<char>) -> Result<Seq<EntryView>, Seq<char>> {
    match parse_from(lines(content), 0) {
        Ok(es) => if es.len() == 0 {
            Err("no subtitle entries found"@)
        } else {
            Ok(es)
        },
        Err(m) => Err(m),
    }
}

/// An entry written out: number, timing and text on consecutive lines.
pub open spec fn block(e: EntryView) -> Seq<char> {
    dec(e.sequence as nat) + seq!['\n'] + e.timestamp + seq!['\n'] + e.text
}

pub open spec fn blocks(es: Seq<EntryView>) -> Seq<Seq<char>> {
    es.map_values(|e: EntryView| block(e))
}

/// What `serialize` gives: the blocks separated by a blank line, and a final newline.
pub open spec fn serialize_spec(es: Seq<EntryView>) -> Seq<char> {
    join(blocks(es), seq!['\n', '\n']) + seq!['\n']
}

fn arrow_in(v: &[char]) -> (r: bool)
    ensures
        r == has_arrow(v@),
{
    let n = v.len();
    if n < 3 {
        assert forall|k: int| !#[trigger] arrow_at(v@, k) by {}
        return false;
    }
    for k in 0..n - 2
        invariant
            n == v@.len(),
            n >= 3,
            forall|m: int| 0 <= m < k ==> !#[trigger] arrow_at(v@, m),
    {
        if v[k] == '-' && v[k + 1] == '-' && v[k + 2] == '>' {
            assert(arrow_at(v@, k as int));
            return true;
        }
    }
    assert forall|m: int| !#[trigger] arrow_at(v@, m) by {}
    false
}

fn error_with(prefix: &str, detail: &[char]) -> (r: SubsForgeError)
    ensures
        r matches SubsForgeError::SrtParse(m) && m@ == prefix@ + detail@,
{
    let mut m = String::from_str(prefix);
    let d = string_of(detail);
    m.append(d.as_str());
    SubsForgeError::SrtParse(m)
}

/// Parses SRT content into its entries. Blank lines between entries are
/// skipped; each entry is a sequence number, a timing line holding `-->`, and
/// the text lines up to the next blank line.
pub fn parse(content: &str) -> (r: Result<Vec<SubtitleEntry>, SubsForgeError>)
    ensures
        r matches Ok(es) ==> parse_spec(content@) == Ok::<Seq<EntryView>, Seq<char>>(
            entries_view(es@),
        ),
        r matches Err(e) ==> (e matches SubsForgeError::SrtParse(m) && parse_spec(content@)
            == Err::<Seq<EntryView>, Seq<char>>(m@)),
{
    let chars = chars_of(content);
    let ls = split_lines(chars.as_slice());
    let ghost lv = views(ls@);
    let n = ls.len();
    let mut entries: Vec<SubtitleEntry> = Vec::new();
    let mut i: usize = 0;
    while i < n
        invariant
            i <= n,
            n == ls@.len(),
            lv == views(ls@),
            lv == lines(content@),
            parse_from(lv, 0) == match parse_from(lv, i as int) {
                Ok(rest) => Ok(entries_view(entries@) + rest),
                Err(m) => Err::<Seq<EntryView>, Seq<char>>(m),
            },
        decreases n - i,
    {
        let ghost start = i as int;
        while i < n && blank(ls[i].as_slice())
            invariant
                start <= i <= n,
                n == ls@.len(),
                lv == views(ls@),
                first_nonblank(lv, start) == first_nonblank(lv, i as int),
            decreases n - i,
        {
            assert(lv[i as int] == ls@[i as int]@);
            i = i + 1;
        }
        proof {
            lemma_first_nonblank(lv, start);
        }
        if i >= n {
            assert(parse_from(lv, start) == Ok::<Seq<EntryView>, Seq<char>>(Seq::empty()));
            assert(entries_view(entries@) + Seq::<EntryView>::empty() =~= entries_view(entries@));
        } else {
            assert(lv[i as int] == ls@[i as int]@);
            let seq_line = trimmed(ls[i].as_slice());
            let sequence = match parse_u32(seq_line.as_slice()) {
                Some(v) => v,
                None => {
                    return Err(error_with("invalid sequence number: ", seq_line.as_slice()));
                },
            };
            if i + 1 >= n {
                return Err(SubsForgeError::SrtParse(String::from_str("unexpected end: expected timestamp")));
            }
            assert(lv[i + 1] == ls@[i + 1]@);
            let timestamp = trimmed(ls[i + 1].as_slice());
            if !arrow_in(timestamp.as_slice()) {
                return Err(error_with("invalid timestamp: ", timestamp.as_slice()));
            }
            let mut text: Vec<char> = Vec::new();
            let mut k = i + 2;
            while k < n && !blank(ls[k].as_slice())
                invariant
                    i + 2 <= k <= n,
                    n == ls@.len(),
                    lv == views(ls@),
                    text_end(lv, (i + 2) as int) == text_end(lv, k as int),
                    text@ == join(lv.subrange(i + 2, k as int), seq!['\n']),
                decreases n - k,
            {
                let ghost before = lv.subrange(i + 2, k as int);
                assert(lv[k as int] == ls@[k as int]@);
                assert(lv.subrange(i + 2, k + 1) =~= before.push(lv[k as int]));
                if k > i + 2 {
                    text.push('\n');
                    proof {
                        lemma_join_push(before, lv[k as int], seq!['\n']);
                    }
                } else {
                    assert(before.push(lv[k as int]) =~= seq![lv[k as int]]);
                    assert(text@ =~= Seq::<char>::empty());
                }
                extend_chars(&mut text, ls[k].as_slice());
                k = k + 1;
            }
            proof {
                lemma_text_end(lv, (i + 2) as int);
            }
            let entry = SubtitleEntry {
                sequence,
                timestamp: string_of(timestamp.as_slice()),
                text: string_of(text.as_slice()),
            };
            let ghost prev = entries_view(entries@);
            entries.push(entry);
            assert(entries_view(entries@) =~= prev.push(entry@));
            assert(parse_from(lv, start) == match parse_from(lv, k as int) {
                Ok(rest) => Ok(seq![entry@] + rest),
                Err(m) => Err::<Seq<EntryView>, Seq<char>>(m),
            });
            proof {
                match parse_from(lv, k as int) {
                    Ok(rest) => {
                        assert(prev + (seq![entry@] + rest) =~= entries_view(entries@) + rest);
                    },
                    Err(m) => {},
                }
            }
            i = k;
        }
    }
    assert(parse_from(lv, n as int) == Ok::<Seq<EntryView>, Seq<char>>(Seq::empty()));
    assert(entries_view(entries@) + Seq::<EntryView>::empty() =~= entries_view(entries@));
    if entries.len() == 0 {
        assert(entries_view(entries@) =~= Seq::<EntryView>::empty());
        return Err(SubsForgeError::SrtParse(String::from_str("no subtitle entries found")));
    }
    Ok(entries)
}

/// Writes entries back in SRT form: each entry as number, timing and text
/// lines, entries separated by a blank line, with a final newline.
pub fn serialize(entries: &[SubtitleEntry]) -> (r: String)
    ensures
        r@ == serialize_spec(entries_view(entries@)),
{
    let mut out: Vec<char> = Vec::new();
    let n = entries.len();
    let ghost bs = blocks(entries_view(entries@));
    for i in 0..n
        invariant
            n == entries@.len(),
            bs == blocks(entries_view(entries@)),
            out@ == join(bs.take(i as int), seq!['\n', '\n']),
    {
        let e = &entries[i];
        let ghost before = bs.take(i as int);
        assert(bs.take(i + 1) =~= before.push(bs[i as int]));
        assert(bs[i as int] == block(e@));
        if i > 0 {
            out.push('\n');
            out.push('\n');
            proof {
                lemma_join_push(before, bs[i as int], seq!['\n', '\n']);
            }
        } else {
            assert(before.push(bs[0]) =~= seq![bs[0]]);
            assert(out@ =~= Seq::<char>::empty());
        }
        let ghost base = out@;
        let num = decimal(e.sequence as u64);
        extend_chars(&mut out, num.as_slice());
        out.push('\n');
        let ts = chars_of(e.timestamp.as_str());
        extend_chars(&mut out, ts.as_slice());
        out.push('\n');
        let tx = chars_of(e.text.as_str());
        extend_chars(&mut out, tx.as_slice());
        assert(out@ =~= base + block(e@));
    }
    assert(bs.take(n as int) =~= bs);
    out.push('\n');
    string_of(out.as_slice())
}

/// The texts of the entries, in order.
pub open spec fn texts_of(es: Seq<EntryView>) -> Seq<Seq<char>> {
    es.map_values(|e: EntryView| e.text)
}

/// The entries with their texts replaced, in order, by `texts`.
pub open spec fn replaced(es: Seq<EntryView>, texts: Seq<Seq<char>>) -> Seq<EntryView> {
    Seq::new(
        es.len(),
        |i: int| EntryView { sequence: es[i].sequence, timestamp: es[i].timestamp, text: texts[i] },
    )
}

/// Law: replacing the texts and extracting them again gives the replacement.
pub proof fn lemma_extract_replaced(es: Seq<EntryView>, texts: Seq<Seq<char>>)
    requires
        es.len() == texts.len(),
    ensures
        texts_of(replaced(es, texts)) == texts,
{
    assert(texts_of(replaced(es, texts)) =~= texts);
}

/// Law: replacing the texts by the entries' own texts changes nothing.
pub proof fn lemma_replace_own_texts(es: Seq<EntryView>)
    ensures
        replaced(es, texts_of(es)) == es,
{
    assert(replaced(es, texts_of(es)) =~= es);
}

/// Law: replacing texts keeps numbers and timings, so replaced well-formed
/// entries with well-formed texts stay well-formed and survive serialization.
pub proof fn lemma_replaced_roundtrip(es: Seq<EntryView>, texts: Seq<Seq<char>>)
    requires
        es.len() > 0,
        es.len() == texts.len(),
        wf_entries(es),
        forall|i: int| 0 <= i < texts.len() ==> wf_text(#[trigger] texts[i]),
    ensures
        parse_spec(serialize_spec(replaced(es, texts))) == Ok::<Seq<EntryView>, Seq<char>>(
            replaced(es, texts),
        ),
{
    let r = replaced(es, texts);
    assert forall|i: int| 0 <= i < r.len() implies wf_entry(#[trigger] r[i]) by {
        assert(wf_entry(es[i]));
        assert(wf_text(texts[i]));
    }
    lemma_serialize_parse_roundtrip(r);
}

/// The text of each entry, in order.
pub fn extract_texts(entries: &[SubtitleEntry]) -> (r: Vec<String>)
    ensures
        string_views(r@) == texts_of(entries_view(entries@)),
{
    let mut out: Vec<String> = Vec::new();
    for i in 0..entries.len()
        invariant
            out@.len() == i,
            forall|k: int| 0 <= k < i ==> #[trigger] out@[k]@ == entries@[k].text@,
    {
        out.push(entries[i].text.clone());
    }
    assert(string_views(out@) =~= texts_of(entries_view(entries@)));
    out
}

/// The entries with their texts replaced, in order, by `translations`;
/// numbers and timings are kept. The two slices must have the same length.
pub fn replace_texts(entries: &[SubtitleEntry], translations: &[String]) -> (r: Result<
    Vec<SubtitleEntry>,
    SubsForgeError,
>)
    ensures
        (r is Ok) == (entries@.len() == translations@.len()),
        r matches Ok(out) ==> entries_view(out@) == replaced(
            entries_view(entries@),
            string_views(translations@),
        ),
        r matches Err(e) ==> (e matches SubsForgeError::SrtParse(m) && m@ == "entry count mismatch: "@
            + dec(entries@.len() as nat) + " entries, "@ + dec(translations@.len() as nat)
            + " translations"@),
{
    if entries.len() != translations.len() {
        let mut m = String::from_str("entry count mismatch: ");
        let a = decimal_string(entries.len() as u64);
        m.append(a.as_str());
        m.append(" entries, ");
        let b = decimal_string(translations.len() as u64);
        m.append(b.as_str());
        m.append(" translations");
        return Err(SubsForgeError::SrtParse(m));
    }
    let mut out: Vec<SubtitleEntry> = Vec::new();
    for i in 0..entries.len()
        invariant
            entries@.len() == translations@.len(),
            out@.len() == i,
            forall|k: int|
                0 <= k < i ==> {
                    &&& (#[trigger] out@[k]).sequence == entries@[k].sequence
                    &&& out@[k].timestamp@ == entries@[k].timestamp@
                    &&& out@[k].text@ == translations@[k]@
                },
    {
        out.push(
            SubtitleEntry {
                sequence: entries[i].sequence,
                timestamp: entries[i].timestamp.clone(),
                text: translations[i].clone(),
            },
        );
    }
    assert(entries_view(out@) =~= replaced(entries_view(entries@), string_views(translations@)));
    Ok(out)
}

/// A text that serializes to lines the parser reads back: empty, or made of
/// non-blank lines none of which ends with a carriage return.
pub open spec fn wf_text(t: Seq<char>) -> bool {
    t.len() == 0 || forall|k: int|
        0 <= k < pieces(t).len() ==> !is_blank(#[trigger] pieces(t)[k]) && !ends_cr(pieces(t)[k])
}

/// An entry that survives serialization and parsing unchanged: a trimmed
/// single-line timing holding `-->`, and a well-formed text.
pub open spec fn wf_entry(e: EntryView) -> bool {
    &&& no_nl(e.timestamp)
    &&& trim(e.timestamp) == e.timestamp
    &&& has_arrow(e.timestamp)
    &&& wf_text(e.text)
}

pub open spec fn wf_entries(es: Seq<EntryView>) -> bool {
    forall|i: int| 0 <= i < es.len() ==> wf_entry(#[trigger] es[i])
}

/// The lines an entry is written as.
pub open spec fn entry_lines(e: EntryView) -> Seq<Seq<char>> {
    seq![dec(e.sequence as nat), e.timestamp] + pieces(e.text)
}

/// The lines a sequence of entries is written as.
pub open spec fn serialized_lines(es: Seq<EntryView>) -> Seq<Seq<char>>
    decreases es.len(),
{
    if es.len() == 0 {
        Seq::empty()
    } else if es.len() == 1 {
        entry_lines(es[0])
    } else {
        entry_lines(es[0]) + seq![Seq::<char>::empty()] + serialized_lines(es.skip(1))
    }
}

proof fn lemma_dec_line(n: u32)
    ensures
        no_nl(dec(n as nat)),
        !is_blank(dec(n as nat)),
        !ends_cr(dec(n as nat)),
        trim(dec(n as nat)) == dec(n as nat),
{
    lemma_dec_digits(n as nat);
    let d = dec(n as nat);
    assert forall|k: int| 0 <= k < d.len() implies #[trigger] d[k] != '\n' by {
        assert(is_digit(d[k]));
    }
    assert(is_digit(d[d.len() - 1]));
    lemma_trim_fixed(d);
}

proof fn lemma_entry_lines(e: EntryView)
    requires
        wf_entry(e),
    ensures
        lines(block(e).push('\n')) == entry_lines(e),
{
    let d = dec(e.sequence as nat);
    let ts = e.timestamp;
    let t = e.text;
    lemma_dec_line(e.sequence);
    lemma_trim_idempotent(ts);
    if ends_cr(ts) {
        lemma_first_non_ws(ts, 0);
        lemma_end_non_ws(ts, ts.len() as int);
        assert(is_ws(ts[ts.len() - 1]));
        assert(trim(ts).len() < ts.len() || !is_ws(trim(ts)[trim(ts).len() - 1]));
        lemma_trim_empty(ts);
        if trim(ts).len() > 0 {
            assert(trim(ts)[trim(ts).len() - 1] == ts[ts.len() - 1]);
        }
    }
    let x = block(e).push('\n');
    let part1 = d.push('\n');
    let part2 = ts.push('\n');
    let part3 = t.push('\n');
    assert(x =~= part1 + (part2 + part3));
    lemma_lines_append(part1, part2 + part3);
    lemma_lines_append(part2, part3);
    lemma_lines_single(d);
    lemma_lines_single(ts);
    if t.len() == 0 {
        lemma_lines_single(t);
        lemma_pieces_empty(t);
        assert(t =~= Seq::<char>::empty());
        assert(strip_cr(t) =~= t);
    } else {
        lemma_lines_are_pieces(t);
    }
    assert(seq![d] + (seq![ts] + pieces(t)) =~= entry_lines(e));
}

/// The text written for well-formed entries has the lines `serialized_lines`.
pub proof fn lemma_serialized_lines(es: Seq<EntryView>)
    requires
        es.len() > 0,
        wf_entries(es),
    ensures
        lines(serialize_spec(es)) == serialized_lines(es),
    decreases es.len(),
{
    let e = es[0];
    assert(wf_entry(es[0]));
    lemma_entry_lines(e);
    let bs = blocks(es);
    if es.len() == 1 {
        assert(bs =~= seq![block(e)]);
        assert(join(bs, seq!['\n', '\n']) == block(e));
        assert(serialize_spec(es) =~= block(e).push('\n'));
    } else {
        let rest = es.skip(1);
        assert forall|i: int| 0 <= i < rest.len() implies wf_entry(#[trigger] rest[i]) by {
            assert(rest[i] == es[i + 1]);
        }
        lemma_serialized_lines(rest);
        assert(bs.skip(1) =~= blocks(rest));
        assert(bs[0] == block(e));
        let sr = serialize_spec(rest);
        assert(join(bs, seq!['\n', '\n']) == block(e) + seq!['\n', '\n'] + join(blocks(rest), seq!['\n', '\n']));
        let head = block(e).push('\n');
        let tail = seq!['\n'] + sr;
        assert(serialize_spec(es) =~= head + tail);
        lemma_lines_append(head, tail);
        lemma_lines_append(seq!['\n'], sr);
        lemma_lines_single(Seq::<char>::empty());
        assert(Seq::<char>::empty().push('\n') =~= seq!['\n']);
        assert(strip_cr(Seq::<char>::empty()) =~= Seq::<char>::empty());
    }
}

proof fn lemma_first_nonblank_shift(p: Seq<Seq<char>>, q: Seq<Seq<char>>, i: int)
    requires
        0 <= i <= q.len(),
    ensures
        first_nonblank(p + q, p.len() + i) == p.len() + first_nonblank(q, i),
    decreases q.len() - i,
{
    if i < q.len() {
        assert((p + q)[p.len() + i] == q[i]);
        if is_blank(q[i]) {
            lemma_first_nonblank_shift(p, q, i + 1);
        }
    }
}

proof fn lemma_text_end_shift(p: Seq<Seq<char>>, q: Seq<Seq<char>>, i: int)
    requires
        0 <= i <= q.len(),
    ensures
        text_end(p + q, p.len() + i) == p.len() + text_end(q, i),
    decreases q.len() - i,
{
    if i < q.len() {
        assert((p + q)[p.len() + i] == q[i]);
        if !is_blank(q[i]) {
            lemma_text_end_shift(p, q, i + 1);
        }
    }
}

/// Parsing a suffix of the lines does not depend on what precedes it.
proof fn lemma_parse_shift(p: Seq<Seq<char>>, q: Seq<Seq<char>>, i: int)
    requires
        0 <= i <= q.len(),
    ensures
        parse_from(p + q, p.len() + i) == parse_from(q, i),
    decreases q.len() - i,
{
    let l = p + q;
    if i < q.len() {
        lemma_first_nonblank_shift(p, q, i);
        lemma_first_nonblank(q, i);
        let j = first_nonblank(q, i);
        if j < q.len() {
            assert(l[p.len() + j] == q[j]);
            if j + 1 < q.len() {
                assert(l[p.len() + j + 1] == q[j + 1]);
                lemma_text_end_shift(p, q, j + 2);
                lemma_text_end(q, j + 2);
                let k = text_end(q, j + 2);
                assert(l.subrange(p.len() + j + 2, p.len() + k) =~= q.subrange(j + 2, k));
                lemma_parse_shift(p, q, k);
            }
        }
    }
}

proof fn lemma_parse_skip_blank(l: Seq<Seq<char>>, i: int)
    requires
        0 <= i < l.len(),
        is_blank(l[i]),
    ensures
        parse_from(l, i) == parse_from(l, i + 1),
{
}

/// Well-formed entries are read back from their lines.
proof fn lemma_parse_serialized_lines(es: Seq<EntryView>)
    requires
        es.len() > 0,
        wf_entries(es),
    ensures
        parse_from(serialized_lines(es), 0) == Ok::<Seq<EntryView>, Seq<char>>(es),
    decreases es.len(),
{
    let e = es[0];
    assert(wf_entry(e));
    lemma_dec_line(e.sequence);
    lemma_parse_dec(e.sequence);
    lemma_pieces_nonempty(e.text, 0);
    let el = entry_lines(e);
    let ps = pieces(e.text);
    let m = if e.text.len() == 0 { 0int } else { ps.len() as int };
    if e.text.len() == 0 {
        lemma_pieces_empty(e.text);
    }
    let empty_line = Seq::<char>::empty();
    assert(is_blank(empty_line));
    let l = serialized_lines(es);
    let rest_l = if es.len() == 1 {
        Seq::<Seq<char>>::empty()
    } else {
        serialized_lines(es.skip(1))
    };
    let head = if es.len() == 1 {
        el
    } else {
        el + seq![empty_line]
    };
    assert(l =~= head + rest_l);
    assert(l[0] == dec(e.sequence as nat));
    assert(l[1] == e.timestamp);
    assert forall|k: int| 2 <= k < 2 + m implies !is_blank(#[trigger] l[k]) by {
        assert(l[k] == ps[k - 2]);
    }
    assert(2 + m < l.len() ==> is_blank(l[2 + m])) by {
        if 2 + m < l.len() {
            if e.text.len() == 0 {
                assert(l[2] == ps[0]);
            } else {
                assert(l[2 + m] == empty_line);
            }
        }
    }
    assert(text_end(l, 2) == 2 + m) by {
        lemma_text_end(l, 2);
        let te = text_end(l, 2);
        if te < 2 + m {
            assert(!is_blank(l[te]));
        }
        if te > 2 + m {
            assert(!is_blank(l[2 + m]));
        }
    }
    assert(first_nonblank(l, 0) == 0);
    if e.text.len() == 0 {
        assert(l.subrange(2, 2) =~= Seq::<Seq<char>>::empty());
        assert(join(l.subrange(2, 2 + m), seq!['\n']) =~= e.text);
    } else {
        assert(l.subrange(2, 2 + m) =~= ps);
        lemma_join_pieces(e.text, 0);
        assert(e.text.subrange(0, e.text.len() as int) =~= e.text);
        assert(join(l.subrange(2, 2 + m), seq!['\n']) == e.text);
    }
    let entry = EntryView { sequence: e.sequence, timestamp: e.timestamp, text: join(l.subrange(2, 2 + m), seq!['\n']) };
    assert(entry == e);
    // what follows the first entry's text
    let after = head.len() as int;
    assert(parse_from(l, 2 + m) == parse_from(l, after)) by {
        if e.text.len() == 0 {
            lemma_parse_skip_blank(l, 2);
            if es.len() > 1 {
                assert(l[3] == empty_line);
                lemma_parse_skip_blank(l, 3);
            }
        } else if es.len() > 1 {
            lemma_parse_skip_blank(l, 2 + m);
        }
    }
    lemma_parse_shift(head, rest_l, 0);
    if es.len() == 1 {
        assert(parse_from(rest_l, 0) == Ok::<Seq<EntryView>, Seq<char>>(Seq::empty()));
        assert(seq![e] + Seq::<EntryView>::empty() =~= es);
    } else {
        let rest = es.skip(1);
        assert forall|i: int| 0 <= i < rest.len() implies wf_entry(#[trigger] rest[i]) by {
            assert(rest[i] == es[i + 1]);
        }
        lemma_parse_serialized_lines(rest);
        assert(seq![e] + rest =~= es);
    }
}

/// Law: serializing well-formed entries and parsing the result gives the
/// same entries back.
pub proof fn lemma_serialize_parse_roundtrip(es: Seq<EntryView>)
    requires
        es.len() > 0,
        wf_entries(es),
    ensures
        parse_spec(serialize_spec(es)) == Ok::<Seq<EntryView>, Seq<char>>(es),
{
    lemma_serialized_lines(es);
    lemma_parse_serialized_lines(es);
}

/// No line of the text ends with a carriage return.
pub open spec fn no_cr_text(t: Seq<char>) -> bool {
    forall|k: int| 0 <= k < pieces(t).len() ==> !ends_cr(#[trigger] pieces(t)[k])
}

/// What every parsed entry satisfies.
pub open spec fn parsed_entry(e: EntryView) -> bool {
    &&& no_nl(e.timestamp)
    &&& trim(e.timestamp) == e.timestamp
    &&& has_arrow(e.timestamp)
    &&& (e.text.len() == 0 || forall|k: int|
        0 <= k < pieces(e.text).len() ==> !is_blank(#[trigger] pieces(e.text)[k]))
}

proof fn lemma_trim_no_nl(x: Seq<char>)
    requires
        no_nl(x),
    ensures
        no_nl(trim(x)),
{
    lemma_trim_sub(x);
    assert forall|k: int| 0 <= k < trim(x).len() implies #[trigger] trim(x)[k] != '\n' by {
        let m = choose|m: int| 0 <= m < x.len() && x[m] == trim(x)[k];
        assert(x[m] != '\n');
    }
}

proof fn lemma_parse_from_parsed(l: Seq<Seq<char>>, i: int)
    requires
        0 <= i <= l.len(),
        forall|k: int| 0 <= k < l.len() ==> no_nl(#[trigger] l[k]),
    ensures
        parse_from(l, i) matches Ok(es) ==> forall|n: int|
            0 <= n < es.len() ==> parsed_entry(#[trigger] es[n]),
    decreases l.len() - i,
{
    if i < l.len() {
        lemma_first_nonblank(l, i);
        let j = first_nonblank(l, i);
        if j < l.len() && j + 1 < l.len() {
            let ts = trim(l[j + 1]);
            if parse_u32_spec(trim(l[j])) is Some && has_arrow(ts) {
                lemma_text_end(l, j + 2);
                let k = text_end(l, j + 2);
                lemma_parse_from_parsed(l, k);
                assert(no_nl(l[j + 1]));
                lemma_trim_no_nl(l[j + 1]);
                lemma_trim_idempotent(l[j + 1]);
                let ls = l.subrange(j + 2, k);
                let text = join(ls, seq!['\n']);
                if k > j + 2 {
                    assert forall|m: int| 0 <= m < ls.len() implies no_nl(#[trigger] ls[m]) by {
                        assert(ls[m] == l[j + 2 + m]);
                    }
                    lemma_pieces_of_join(ls);
                    assert forall|m: int| 0 <= m < pieces(text).len() implies !is_blank(
                        #[trigger] pieces(text)[m],
                    ) by {
                        assert(pieces(text)[m] == l[j + 2 + m]);
                    }
                } else {
                    assert(ls =~= Seq::<Seq<char>>::empty());
                }
                let e = EntryView { sequence: parse_u32_spec(trim(l[j]))->0, timestamp: ts, text };
                assert(parsed_entry(e));
                match parse_from(l, k) {
                    Ok(rest) => {
                        let es = seq![e] + rest;
                        assert forall|n: int| 0 <= n < es.len() implies parsed_entry(#[trigger] es[n]) by {
                            if n > 0 {
                                assert(es[n] == rest[n - 1]);
                            }
                        }
                    },
                    Err(_) => {},
                }
            }
        }
    }
}

/// Law: parsing, serializing and parsing again gives what the first parse
/// gave, unless a subtitle line ends with a carriage return.
pub proof fn lemma_parse_serialize_roundtrip(content: Seq<char>)
    requires
        parse_spec(content) is Ok,
        forall|n: int|
            0 <= n < parse_spec(content)->Ok_0.len() ==> no_cr_text(
                #[trigger] parse_spec(content)->Ok_0[n].text,
            ),
    ensures
        parse_spec(serialize_spec(parse_spec(content)->Ok_0)) == parse_spec(content),
{
    let l = lines(content);
    lemma_lines_no_nl(content, 0);
    lemma_parse_from_parsed(l, 0);
    let es = parse_spec(content)->Ok_0;
    assert forall|n: int| 0 <= n < es.len() implies wf_entry(#[trigger] es[n]) by {
        assert(parsed_entry(es[n]));
        assert(no_cr_text(es[n].text));
    }
    lemma_serialize_parse_roundtrip(es);
}

} // verus!
