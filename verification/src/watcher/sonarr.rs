//! Episodes from Sonarr: which episode files become media items, and their titles.
use vstd::prelude::*;

use crate::naming::{file_title, stem_or_empty};
use crate::text::{
    all_digits, dec, digit_char, digit_value, digits_value, int_dec, is_digit, lemma_dec_digits,
    lemma_digit_char, signed_decimal,
};

verus! {

/// A media file offered by Sonarr or Radarr.
#[derive(Debug)]
pub struct MediaItem {
    pub path: String,
    pub title: String,
    pub source_id: i64,
}

/// A media item as a mathematical value.
pub struct ItemView {
    pub path: Seq<char>,
    pub title: Seq<char>,
    pub source_id: i64,
}

impl View for MediaItem {
    type V = ItemView;

    open spec fn view(&self) -> ItemView {
        ItemView { path: self.path@, title: self.title@, source_id: self.source_id }
    }
}

pub open spec fn items_view(v: Seq<MediaItem>) -> Seq<ItemView> {
    v.map_values(|m: MediaItem| m@)
}

/// A series of the Sonarr library.
pub struct Series {
    pub id: i64,
    pub title: Option<String>,
}

/// An episode file of a series.
pub struct EpisodeFile {
    pub id: i64,
    pub path: Option<String>,
    pub season_number: Option<i64>,
}

/// The title a series is shown by: its own, else `Unknown`.
pub open spec fn series_title_spec(s: Series) -> Seq<char> {
    match s.title {
        Some(t) => t@,
        None => "Unknown"@,
    }
}

/// A season number as `{:02}` writes it: at least two digits, a negative
/// number with its sign.
pub open spec fn season_code(season: int) -> Seq<char> {
    if 0 <= season < 10 {
        "0"@ + dec(season as nat)
    } else {
        int_dec(season)
    }
}

proof fn lemma_dec_leading(n: nat)
    requires
        n >= 1,
    ensures
        dec(n)[0] != '0',
    decreases n,
{
    if n < 10 {
        lemma_digit_char(n);
        assert(dec(n)[0] == digit_char(n));
        assert(digit_value(digit_char(n)) == n);
    } else {
        lemma_dec_leading(n / 10);
        lemma_dec_digits(n / 10);
        assert(dec(n)[0] == dec(n / 10)[0]);
    }
}

proof fn lemma_digits_leading_zero(t: Seq<char>)
    ensures
        digits_value(seq!['0'] + t) == digits_value(t),
    decreases t.len(),
{
    if t.len() == 0 {
        assert(seq!['0'] + t =~= seq!['0']);
        assert(seq!['0'].drop_last() =~= Seq::<char>::empty());
        assert(seq!['0'].last() == '0');
        assert(digit_value('0') == 0);
        assert(digits_value(Seq::<char>::empty()) == 0);
        assert(digits_value(seq!['0']) == digits_value(Seq::<char>::empty()) * 10 + digit_value('0'));
        assert(digits_value(t) == 0);
    } else {
        lemma_digits_leading_zero(t.drop_last());
        assert((seq!['0'] + t).drop_last() =~= seq!['0'] + t.drop_last());
        assert((seq!['0'] + t).last() == t.last());
    }
}

/// The season part of an episode title is the season's decimal notation
/// padded with zeros to two digits: it is made of at least two digits, reads
/// back as the season, is exactly two digits for a single-digit season, and
/// begins with `0` exactly when the season has a single digit.
pub proof fn lemma_season_code(season: int)
    requires
        season >= 0,
    ensures
        all_digits(season_code(season)),
        digits_value(season_code(season)) == season,
        season_code(season).len() >= 2,
        season < 10 ==> season_code(season).len() == 2,
        (season_code(season)[0] == '0') == (season < 10),
{
    let n = season as nat;
    lemma_dec_digits(n);
    if season < 10 {
        reveal_strlit("0");
        lemma_digit_char(n);
        let c = "0"@ + dec(n);
        assert(dec(n) == seq![digit_char(n)]);
        assert(c =~= seq!['0'] + dec(n));
        lemma_digits_leading_zero(dec(n));
        assert(is_digit('0'));
        assert forall|i: int| 0 <= i < c.len() implies #[trigger] is_digit(c[i]) by {
            if i > 0 {
                assert(c[i] == dec(n)[i - 1]);
            }
        }
    } else {
        lemma_dec_leading(n);
        assert(dec(n) == dec(n / 10).push(digit_char(n % 10)));
        lemma_dec_digits(n / 10);
    }
}

/// `{series} S{season:02} - {file stem}`; an episode without a season number
/// counts as season 0, a path without a file name has an empty stem.
pub open spec fn episode_title(series: Seq<char>, f: EpisodeFile, path: Seq<char>) -> Seq<char> {
    let season = match f.season_number {
        Some(s) => s as int,
        None => 0,
    };
    series + " S"@ + season_code(season) + " - "@ + stem_or_empty(path)
}

/// The media items of a series' episode files: one for each file with a path,
/// in order, identified by the file's id.
pub open spec fn episode_items_spec(series: Seq<char>, files: Seq<EpisodeFile>) -> Seq<ItemView>
    decreases files.len(),
{
    if files.len() == 0 {
        Seq::empty()
    } else {
        let rest = episode_items_spec(series, files.drop_last());
        let f = files.last();
        match f.path {
            Some(p) => rest.push(
                ItemView { path: p@, title: episode_title(series, f, p@), source_id: f.id },
            ),
            None => rest,
        }
    }
}

/// The title a series is shown by.
pub fn series_title(s: &Series) -> (r: String)
    ensures
        r@ == series_title_spec(*s),
{
    match &s.title {
        Some(t) => t.clone(),
        None => String::from_str("Unknown"),
    }
}

fn season_text(season: i64) -> (r: String)
    ensures
        r@ == season_code(season as int),
{
    if 0 <= season && season < 10 {
        let mut r = String::from_str("0");
        let digits = signed_decimal(season);
        r.append(digits.as_str());
        r
    } else {
        signed_decimal(season)
    }
}

/// The media items for the episode files `files` of the series titled `series`.
pub fn episode_items(series: &str, files: &[EpisodeFile]) -> (r: Vec<MediaItem>)
    ensures
        items_view(r@) == episode_items_spec(series@, files@),
{
    let mut out: Vec<MediaItem> = Vec::new();
    for i in 0..files.len()
        invariant
            items_view(out@) == episode_items_spec(series@, files@.take(i as int)),
    {
        let f = &files[i];
        assert(files@.take(i + 1).drop_last() == files@.take(i as int));
        assert(files@.take(i + 1).last() == *f);
        let ghost before = items_view(out@);
        match &f.path {
            Some(p) => {
                let season = match f.season_number {
                    Some(s) => s,
                    None => 0,
                };
                let stem = file_title(p.as_str());
                let mut title = String::from_str(series);
                title.append(" S");
                let code = season_text(season);
                title.append(code.as_str());
                title.append(" - ");
                title.append(stem.as_str());
                out.push(MediaItem { path: p.clone(), title, source_id: f.id });
                assert(items_view(out@) =~= before.push(
                    ItemView { path: p@, title: episode_title(series@, *f, p@), source_id: f.id },
                ));
            },
            None => {},
        }
    }
    assert(files@.take(files@.len() as int) == files@);
    out
}

} // verus!
