//! Configuration: its structure, defaults, home-directory expansion and the
//! mapping of remote media paths to local ones.
use vstd::prelude::*;

use crate::error::SubsForgeError;
use crate::naming::{join, opt_view, parent, path_join, path_parent, path_strip_prefix, strip_prefix};
use crate::text::{
    chars_of, dec, decimal_string, head, index_in, index_of, lemma_index_of, string_of, tail,
};

verus! {

#[derive(Debug, Clone)]
pub struct Config {
    pub general: GeneralConfig,
    pub server: ServerConfig,
    pub whisper: WhisperConfig,
    pub ffmpeg: FfmpegConfig,
    pub translator: TranslatorConfig,
    pub sonarr: Option<ArrConfig>,
    pub radarr: Option<ArrConfig>,
    pub path_mappings: Vec<PathMapping>,
    pub database: DatabaseConfig,
}

#[derive(Debug, Clone)]
pub struct GeneralConfig {
    pub poll_interval_minutes: u64,
    pub target_languages: Vec<String>,
    pub save_original_srt: bool,
}

#[derive(Debug, Clone)]
pub struct ServerConfig {
    pub host: String,
    pub port: u16,
}

#[derive(Debug, Clone)]
pub struct WhisperConfig {
    pub binary: String,
    pub model: String,
    pub language: String,
    pub extra_args: Vec<String>,
}

#[derive(Debug, Clone)]
pub struct FfmpegConfig {
    pub binary: String,
    pub audio_track: u32,
}

#[derive(Debug, Clone)]
pub struct TranslatorConfig {
    pub endpoint: String,
    pub timeout_seconds: u64,
    pub max_retries: u32,
}

#[derive(Debug, Clone)]
pub struct ArrConfig {
    pub url: String,
    pub api_key: String,
    pub lookback_days: u32,
}

#[derive(Debug, Clone)]
pub struct PathMapping {
    pub remote_prefix: String,
    pub local_prefix: String,
}

#[derive(Debug, Clone)]
pub struct DatabaseConfig {
    pub url: String,
}

/// Subtitles in the source language are saved unless configured otherwise.
pub fn default_true() -> (r: bool)
    ensures
        r,
{
    true
}

/// The server listens on all interfaces by default.
pub fn default_host() -> (r: String)
    ensures
        r@ == "0.0.0.0"@,
{
    String::from_str("0.0.0.0")
}

pub fn default_port() -> (r: u16)
    ensures
        r == 8385,
{
    8385
}

/// Whisper detects the language by default.
pub fn default_auto() -> (r: String)
    ensures
        r@ == "auto"@,
{
    String::from_str("auto")
}

pub fn default_timeout() -> (r: u64)
    ensures
        r == 300,
{
    300
}

pub fn default_retries() -> (r: u32)
    ensures
        r == 3,
{
    3
}

pub fn default_lookback() -> (r: u32)
    ensures
        r == 7,
{
    7
}

/// `s` begins with `p`.
pub open spec fn starts_with(s: Seq<char>, p: Seq<char>) -> bool {
    p.len() <= s.len() && s.take(p.len() as int) == p
}

/// `s` without its leading `'/'` characters.
pub open spec fn trim_leading_slashes(s: Seq<char>) -> Seq<char>
    decreases s.len(),
{
    if s.len() > 0 && s[0] == '/' {
        trim_leading_slashes(s.skip(1))
    } else {
        s
    }
}

pub open spec fn mapping_view(m: PathMapping) -> (Seq<char>, Seq<char>) {
    (m.remote_prefix@, m.local_prefix@)
}

pub open spec fn mappings_view(ms: Seq<PathMapping>) -> Seq<(Seq<char>, Seq<char>)> {
    ms.map_values(|m: PathMapping| mapping_view(m))
}

/// The local path for `remote` by the first mapping, from index `i` on, whose
/// remote prefix begins it: the rest of `remote`, without leading slashes,
/// under that mapping's local prefix.
pub open spec fn mapped_from(ms: Seq<(Seq<char>, Seq<char>)>, remote: Seq<char>, i: int) -> Option<
    Seq<char>,
>
    decreases ms.len() - i,
{
    if i < 0 || i >= ms.len() {
        None
    } else if starts_with(remote, ms[i].0) {
        Some(path_join(ms[i].1, trim_leading_slashes(remote.skip(ms[i].0.len() as int))))
    } else {
        mapped_from(ms, remote, i + 1)
    }
}

/// `s` with every `'~'` replaced by `home`.
pub open spec fn replace_tilde(s: Seq<char>, home: Seq<char>) -> Seq<char>
    decreases s.len(),
{
    if s.len() == 0 {
        Seq::empty()
    } else {
        replace_tilde(s.drop_last(), home) + if s.last() == '~' {
            home
        } else {
            seq![s.last()]
        }
    }
}

/// A path beginning with the component `~` moved under `home`.
pub open spec fn expand_tilde_spec(path: Seq<char>, home: Seq<char>) -> Seq<char> {
    match path_strip_prefix(path, "~"@) {
        Some(rest) => path_join(home, rest),
        None => path,
    }
}

/// The path with a leading `~` component replaced by `home`.
pub fn expand_tilde(path: &str, home: &str) -> (r: String)
    ensures
        r@ == expand_tilde_spec(path@, home@),
{
    match strip_prefix(path, "~") {
        Some(rest) => join(home, rest.as_str()),
        None => String::from_str(path),
    }
}

/// `str::replace('~', home)`.
pub fn replace_tilde_with(s: &str, home: &str) -> (r: String)
    ensures
        r@ == replace_tilde(s@, home@),
{
    let cs = chars_of(s);
    let hs = chars_of(home);
    let mut out: Vec<char> = Vec::new();
    for i in 0..cs.len()
        invariant
            cs@ == s@,
            hs@ == home@,
            out@ == replace_tilde(s@.take(i as int), home@),
    {
        let ghost before = out@;
        assert(s@.take(i + 1).drop_last() == s@.take(i as int));
        if cs[i] == '~' {
            crate::text::extend_chars(&mut out, hs.as_slice());
        } else {
            out.push(cs[i]);
        }
        assert(out@ =~= replace_tilde(s@.take(i + 1), home@));
    }
    assert(s@.take(cs.len() as int) == s@);
    string_of(out.as_slice())
}

fn trimmed_slashes_from(v: &[char], start: usize) -> (r: String)
    requires
        start <= v@.len(),
    ensures
        r@ == trim_leading_slashes(v@.skip(start as int)),
{
    let mut i = start;
    while i < v.len() && v[i] == '/'
        invariant
            start <= i <= v@.len(),
            trim_leading_slashes(v@.skip(start as int)) == trim_leading_slashes(v@.skip(i as int)),
        decreases v@.len() - i,
    {
        assert(v@.skip(i as int).skip(1) == v@.skip(i + 1));
        i = i + 1;
    }
    let mut out: Vec<char> = Vec::new();
    for k in i..v.len()
        invariant
            i <= v@.len(),
            out@ == v@.subrange(i as int, k as int),
    {
        out.push(v[k]);
        assert(v@.subrange(i as int, k + 1) == v@.subrange(i as int, k as int).push(v@[k as int]));
    }
    assert(out@ == v@.skip(i as int));
    string_of(out.as_slice())
}

fn begins_with(s: &[char], p: &[char]) -> (r: bool)
    ensures
        r == starts_with(s@, p@),
{
    if p.len() > s.len() {
        return false;
    }
    for k in 0..p.len()
        invariant
            p@.len() <= s@.len(),
            forall|m: int| 0 <= m < k ==> s@[m] == p@[m],
    {
        if s[k] != p[k] {
            assert(s@.take(p@.len() as int)[k as int] != p@[k as int]);
            return false;
        }
    }
    assert(s@.take(p@.len() as int) =~= p@);
    true
}

/// The file path of an SQLite URL: what follows `sqlite:`, up to the first `?`.
pub open spec fn sqlite_file(url: Seq<char>) -> Option<Seq<char>> {
    let scheme = "sqlite:"@;
    if starts_with(url, scheme) {
        let rest = url.skip(scheme.len() as int);
        Some(rest.take(index_of(rest, '?', 0)))
    } else {
        None
    }
}

/// The directory that has to exist before the database at `url` is opened:
/// the parent of the file of an SQLite URL, if it has one.
pub open spec fn database_directory_spec(url: Seq<char>) -> Option<Seq<char>> {
    match sqlite_file(url) {
        Some(p) => path_parent(p),
        None => None,
    }
}

/// The directory to create before opening the database at `url`.
pub fn database_directory(url: &str) -> (r: Option<String>)
    ensures
        opt_view(r) == database_directory_spec(url@),
{
    let v = chars_of(url);
    let scheme = chars_of("sqlite:");
    if !begins_with(v.as_slice(), scheme.as_slice()) {
        return None;
    }
    let rest = tail(v.as_slice(), scheme.len());
    let end = index_in(rest.as_slice(), '?', 0);
    proof {
        lemma_index_of(rest@, '?', 0);
    }
    let file = head(rest.as_slice(), end);
    let path = string_of(file.as_slice());
    parent(path.as_str())
}

impl ServerConfig {
    /// The address the server listens on: `{host}:{port}`.
    pub fn listen_address(&self) -> (r: String)
        ensures
            r@ == self.host@ + ":"@ + dec(self.port as nat),
    {
        let mut r = self.host.clone();
        r.append(":");
        let port = decimal_string(self.port as u64);
        r.append(port.as_str());
        r
    }
}

impl GeneralConfig {
    /// The time between two polling cycles, in seconds.
    pub fn poll_interval_seconds(&self) -> (r: u64)
        requires
            self.poll_interval_minutes * 60 <= u64::MAX,
        ensures
            r == self.poll_interval_minutes * 60,
    {
        self.poll_interval_minutes * 60
    }
}

impl Config {
    /// The local path of `remote_path`, by the first path mapping whose remote
    /// prefix begins it; an error naming `remote_path` when none does.
    pub fn map_path(&self, remote_path: &str) -> (r: Result<String, SubsForgeError>)
        ensures
            mapped_from(mappings_view(self.path_mappings@), remote_path@, 0) matches Some(p) ==> (
            r matches Ok(q) && q@ == p),
            mapped_from(mappings_view(self.path_mappings@), remote_path@, 0) is None ==> (
            r matches Err(e) && e matches SubsForgeError::PathMapping(m) && m@ == remote_path@),
    {
        let ghost ms = mappings_view(self.path_mappings@);
        let remote = chars_of(remote_path);
        let n = self.path_mappings.len();
        for i in 0..n
            invariant
                n == self.path_mappings@.len(),
                ms == mappings_view(self.path_mappings@),
                remote@ == remote_path@,
                mapped_from(ms, remote_path@, 0) == mapped_from(ms, remote_path@, i as int),
        {
            let m = &self.path_mappings[i];
            assert(ms[i as int] == mapping_view(*m));
            let prefix = chars_of(m.remote_prefix.as_str());
            if begins_with(remote.as_slice(), prefix.as_slice()) {
                let relative = trimmed_slashes_from(remote.as_slice(), prefix.len());
                return Ok(join(m.local_prefix.as_str(), relative.as_str()));
            }
        }
        Err(SubsForgeError::PathMapping(String::from_str(remote_path)))
    }

    /// Moves the configured paths that begin with `~` under `home`, and puts
    /// `home` in place of every `~` of the database URL.
    pub fn expand_home(&mut self, home: &str)
        ensures
            final(self).whisper.model@ == expand_tilde_spec(old(self).whisper.model@, home@),
            final(self).whisper.binary@ == expand_tilde_spec(old(self).whisper.binary@, home@),
            final(self).ffmpeg.binary@ == expand_tilde_spec(old(self).ffmpeg.binary@, home@),
            final(self).database.url@ == replace_tilde(old(self).database.url@, home@),
            final(self).whisper.language == old(self).whisper.language,
            final(self).whisper.extra_args == old(self).whisper.extra_args,
            final(self).ffmpeg.audio_track == old(self).ffmpeg.audio_track,
            final(self).general == old(self).general,
            final(self).server == old(self).server,
            final(self).translator == old(self).translator,
            final(self).sonarr == old(self).sonarr,
            final(self).radarr == old(self).radarr,
            final(self).path_mappings == old(self).path_mappings,
    {
        let model = expand_tilde(self.whisper.model.as_str(), home);
        self.whisper.model = model;
        let binary = expand_tilde(self.whisper.binary.as_str(), home);
        self.whisper.binary = binary;
        let ffmpeg = expand_tilde(self.ffmpeg.binary.as_str(), home);
        self.ffmpeg.binary = ffmpeg;
        let url = replace_tilde_with(self.database.url.as_str(), home);
        self.database.url = url;
    }
}

} // verus!
