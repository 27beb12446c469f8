//! Movies from Radarr: which movies become media items, and their titles.
use vstd::prelude::*;

use crate::text::{int_dec, signed_decimal};
use super::sonarr::{items_view, ItemView, MediaItem};

verus! {

/// A movie of the Radarr library.
pub struct Movie {
    pub id: i64,
    pub title: Option<String>,
    pub year: Option<i64>,
    pub has_file: Option<bool>,
    pub movie_file: Option<MovieFile>,
}

/// The file of a movie.
pub struct MovieFile {
    pub path: Option<String>,
}

/// `{title} ({year})`; the title alone without a year; `Unknown` without a title.
pub open spec fn movie_title(m: Movie) -> Seq<char> {
    match (m.title, m.year) {
        (Some(t), Some(y)) => t@ + " ("@ + int_dec(y as int) + ")"@,
        (Some(t), None) => t@,
        _ => "Unknown"@,
    }
}

/// The path of a movie's file, for a movie that has one.
pub open spec fn movie_path(m: Movie) -> Option<Seq<char>> {
    if m.has_file == Some(true) {
        match m.movie_file {
            Some(f) => match f.path {
                Some(p) => Some(p@),
                None => None,
            },
            None => None,
        }
    } else {
        None
    }
}

/// The media items of the movies: one for each movie that has a file with a
/// path, in order, identified by the movie's id.
pub open spec fn movie_items_spec(movies: Seq<Movie>) -> Seq<ItemView>
    decreases movies.len(),
{
    if movies.len() == 0 {
        Seq::empty()
    } else {
        let rest = movie_items_spec(movies.drop_last());
        let m = movies.last();
        match movie_path(m) {
            Some(p) => rest.push(ItemView { path: p, title: movie_title(m), source_id: m.id }),
            None => rest,
        }
    }
}

fn title_of(m: &Movie) -> (r: String)
    ensures
        r@ == movie_title(*m),
{
    match (&m.title, m.year) {
        (Some(t), Some(y)) => {
            let mut r = t.clone();
            r.append(" (");
            let year = signed_decimal(y);
            r.append(year.as_str());
            r.append(")");
            r
        },
        (Some(t), None) => t.clone(),
        _ => String::from_str("Unknown"),
    }
}

/// The media items for the movies of the library.
pub fn movie_items(movies: &[Movie]) -> (r: Vec<MediaItem>)
    ensures
        items_view(r@) == movie_items_spec(movies@),
{
    let mut out: Vec<MediaItem> = Vec::new();
    for i in 0..movies.len()
        invariant
            items_view(out@) == movie_items_spec(movies@.take(i as int)),
    {
        let m = &movies[i];
        assert(movies@.take(i + 1).drop_last() == movies@.take(i as int));
        assert(movies@.take(i + 1).last() == *m);
        let ghost before = items_view(out@);
        if m.has_file == Some(true) {
            match &m.movie_file {
                Some(f) => match &f.path {
                    Some(p) => {
                        let title = title_of(m);
                        out.push(MediaItem { path: p.clone(), title, source_id: m.id });
                        assert(items_view(out@) =~= before.push(
                            ItemView { path: p@, title: movie_title(*m), source_id: m.id },
                        ));
                    },
                    None => {},
                },
                None => {},
            }
        }
    }
    assert(movies@.take(movies@.len() as int) == movies@);
    out
}

} // verus!
