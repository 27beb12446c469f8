//! Translation through an NLLB-200 server: language codes, the request, and
//! the retry policy that decides what happens after each attempt.
use vstd::prelude::*;

use crate::config::TranslatorConfig;
use crate::error::SubsForgeError;
use crate::text::{dec, decimal_string, str_eq};

verus! {

/// The NLLB-200 code (language and script) of an ISO 639-1 language code;
/// any other code is passed through as already being an NLLB code.
pub open spec fn nllb_code(iso: Seq<char>) -> Seq<char> {
    if iso == "en"@ {
        "eng_Latn"@
    } else if iso == "fr"@ {
        "fra_Latn"@
    } else if iso == "ja"@ {
        "jpn_Jpan"@
    } else if iso == "ko"@ {
        "kor_Hang"@
    } else if iso == "de"@ {
        "deu_Latn"@
    } else if iso == "es"@ {
        "spa_Latn"@
    } else if iso == "it"@ {
        "ita_Latn"@
    } else if iso == "pt"@ {
        "por_Latn"@
    } else if iso == "zh"@ {
        "zho_Hans"@
    } else if iso == "ru"@ {
        "rus_Cyrl"@
    } else if iso == "ar"@ {
        "arb_Arab"@
    } else if iso == "hi"@ {
        "hin_Deva"@
    } else if iso == "th"@ {
        "tha_Thai"@
    } else if iso == "vi"@ {
        "vie_Latn"@
    } else if iso == "tr"@ {
        "tur_Latn"@
    } else if iso == "pl"@ {
        "pol_Latn"@
    } else if iso == "nl"@ {
        "nld_Latn"@
    } else if iso == "sv"@ {
        "swe_Latn"@
    } else if iso == "da"@ {
        "dan_Latn"@
    } else if iso == "no"@ {
        "nob_Latn"@
    } else {
        iso
    }
}

/// A code that is already an NLLB code is passed through: converting twice
/// gives what converting once gives.
pub proof fn lemma_nllb_code_idempotent(code: Seq<char>)
    ensures
        nllb_code(nllb_code(code)) == nllb_code(code),
{
    reveal_strlit("en");
    reveal_strlit("fr");
    reveal_strlit("ja");
    reveal_strlit("ko");
    reveal_strlit("de");
    reveal_strlit("es");
    reveal_strlit("it");
    reveal_strlit("pt");
    reveal_strlit("zh");
    reveal_strlit("ru");
    reveal_strlit("ar");
    reveal_strlit("hi");
    reveal_strlit("th");
    reveal_strlit("vi");
    reveal_strlit("tr");
    reveal_strlit("pl");
    reveal_strlit("nl");
    reveal_strlit("sv");
    reveal_strlit("da");
    reveal_strlit("no");
    reveal_strlit("eng_Latn");
    reveal_strlit("fra_Latn");
    reveal_strlit("jpn_Jpan");
    reveal_strlit("kor_Hang");
    reveal_strlit("deu_Latn");
    reveal_strlit("spa_Latn");
    reveal_strlit("ita_Latn");
    reveal_strlit("por_Latn");
    reveal_strlit("zho_Hans");
    reveal_strlit("rus_Cyrl");
    reveal_strlit("arb_Arab");
    reveal_strlit("hin_Deva");
    reveal_strlit("tha_Thai");
    reveal_strlit("vie_Latn");
    reveal_strlit("tur_Latn");
    reveal_strlit("pol_Latn");
    reveal_strlit("nld_Latn");
    reveal_strlit("swe_Latn");
    reveal_strlit("dan_Latn");
    reveal_strlit("nob_Latn");
    if code.len() == 2 {
        assert(nllb_code(code).len() == 2 || nllb_code(code).len() == 8);
        if nllb_code(code).len() == 8 {
            assert(nllb_code(nllb_code(code)) == nllb_code(code));
        }
    }
}

/// The ISO 639-1 codes that have an NLLB-200 code of their own.
pub open spec fn iso_table_code(c: Seq<char>) -> bool {
    ||| c == "en"@
    ||| c == "fr"@
    ||| c == "ja"@
    ||| c == "ko"@
    ||| c == "de"@
    ||| c == "es"@
    ||| c == "it"@
    ||| c == "pt"@
    ||| c == "zh"@
    ||| c == "ru"@
    ||| c == "ar"@
    ||| c == "hi"@
    ||| c == "th"@
    ||| c == "vi"@
    ||| c == "tr"@
    ||| c == "pl"@
    ||| c == "nl"@
    ||| c == "sv"@
    ||| c == "da"@
    ||| c == "no"@
}

/// Each ISO code of the table has a code of its own: two different codes of
/// the table never share an NLLB code, and each is converted to a code of
/// the NLLB form `xxx_Yyyy`, never left as it is.
pub proof fn lemma_nllb_code_distinct(a: Seq<char>, b: Seq<char>)
    requires
        iso_table_code(a),
        iso_table_code(b),
        a != b,
    ensures
        nllb_code(a) != nllb_code(b),
        nllb_code(a) != a,
        nllb_code(a).len() == 8,
        nllb_code(a)[3] == '_',
{
    reveal_strlit("en");
    reveal_strlit("fr");
    reveal_strlit("ja");
    reveal_strlit("ko");
    reveal_strlit("de");
    reveal_strlit("es");
    reveal_strlit("it");
    reveal_strlit("pt");
    reveal_strlit("zh");
    reveal_strlit("ru");
    reveal_strlit("ar");
    reveal_strlit("hi");
    reveal_strlit("th");
    reveal_strlit("vi");
    reveal_strlit("tr");
    reveal_strlit("pl");
    reveal_strlit("nl");
    reveal_strlit("sv");
    reveal_strlit("da");
    reveal_strlit("no");
    reveal_strlit("eng_Latn");
    reveal_strlit("fra_Latn");
    reveal_strlit("jpn_Jpan");
    reveal_strlit("kor_Hang");
    reveal_strlit("deu_Latn");
    reveal_strlit("spa_Latn");
    reveal_strlit("ita_Latn");
    reveal_strlit("por_Latn");
    reveal_strlit("zho_Hans");
    reveal_strlit("rus_Cyrl");
    reveal_strlit("arb_Arab");
    reveal_strlit("hin_Deva");
    reveal_strlit("tha_Thai");
    reveal_strlit("vie_Latn");
    reveal_strlit("tur_Latn");
    reveal_strlit("pol_Latn");
    reveal_strlit("nld_Latn");
    reveal_strlit("swe_Latn");
    reveal_strlit("dan_Latn");
    reveal_strlit("nob_Latn");
    let x = nllb_code(a);
    let y = nllb_code(b);
    assert(x.len() == 8 && y.len() == 8);
    assert(x.take(3) != y.take(3)) by {
        if x.take(3) == y.take(3) {
            assert(x.take(3)[0] == y.take(3)[0]);
            assert(x.take(3)[1] == y.take(3)[1]);
            assert(x.take(3)[2] == y.take(3)[2]);
        }
    }
}

/// NLLB-200 language code for `iso_code`.
pub fn to_nllb_code(iso_code: &str) -> (r: &str)
    ensures
        r@ == nllb_code(iso_code@),
{
    if str_eq(iso_code, "en") {
        "eng_Latn"
    } else if str_eq(iso_code, "fr") {
        "fra_Latn"
    } else if str_eq(iso_code, "ja") {
        "jpn_Jpan"
    } else if str_eq(iso_code, "ko") {
        "kor_Hang"
    } else if str_eq(iso_code, "de") {
        "deu_Latn"
    } else if str_eq(iso_code, "es") {
        "spa_Latn"
    } else if str_eq(iso_code, "it") {
        "ita_Latn"
    } else if str_eq(iso_code, "pt") {
        "por_Latn"
    } else if str_eq(iso_code, "zh") {
        "zho_Hans"
    } else if str_eq(iso_code, "ru") {
        "rus_Cyrl"
    } else if str_eq(iso_code, "ar") {
        "arb_Arab"
    } else if str_eq(iso_code, "hi") {
        "hin_Deva"
    } else if str_eq(iso_code, "th") {
        "tha_Thai"
    } else if str_eq(iso_code, "vi") {
        "vie_Latn"
    } else if str_eq(iso_code, "tr") {
        "tur_Latn"
    } else if str_eq(iso_code, "pl") {
        "pol_Latn"
    } else if str_eq(iso_code, "nl") {
        "nld_Latn"
    } else if str_eq(iso_code, "sv") {
        "swe_Latn"
    } else if str_eq(iso_code, "da") {
        "dan_Latn"
    } else if str_eq(iso_code, "no") {
        "nob_Latn"
    } else {
        iso_code
    }
}

/// The body of a translation request: the texts and the NLLB codes of the
/// source and target languages.
#[derive(Debug, Clone)]
pub struct TranslateRequest {
    pub text: Vec<String>,
    pub source_lang: String,
    pub target_lang: String,
}

/// The request that translates `texts` from `source_lang` to `target_lang`
/// (ISO or NLLB codes).
pub fn translate_request(texts: &Vec<String>, source_lang: &str, target_lang: &str) -> (r:
    TranslateRequest)
    ensures
        r.text@ == texts@,
        r.source_lang@ == nllb_code(source_lang@),
        r.target_lang@ == nllb_code(target_lang@),
{
    let mut text: Vec<String> = Vec::new();
    for i in 0..texts.len()
        invariant
            text@ == texts@.take(i as int),
    {
        text.push(texts[i].clone());
        assert(text@ =~= texts@.take(i + 1));
    }
    assert(texts@.take(texts@.len() as int) =~= texts@);
    TranslateRequest {
        text,
        source_lang: String::from_str(to_nllb_code(source_lang)),
        target_lang: String::from_str(to_nllb_code(target_lang)),
    }
}

/// The address translation requests are sent to.
pub fn translate_url(config: &TranslatorConfig) -> (r: String)
    ensures
        r@ == config.endpoint@ + "/translate"@,
{
    let mut u = config.endpoint.clone();
    u.append("/translate");
    u
}

/// The address of the server's health check.
pub fn health_url(config: &TranslatorConfig) -> (r: String)
    ensures
        r@ == config.endpoint@ + "/health"@,
{
    let mut u = config.endpoint.clone();
    u.append("/health");
    u
}

/// 2 to the power `n`.
pub open spec fn two_pow(n: nat) -> nat
    decreases n,
{
    if n == 0 {
        1
    } else {
        2 * two_pow((n - 1) as nat)
    }
}

proof fn lemma_two_pow_mono(i: nat, j: nat)
    requires
        i <= j,
    ensures
        two_pow(i) <= two_pow(j),
    decreases j,
{
    if i < j {
        lemma_two_pow_mono(i, (j - 1) as nat);
    }
}

fn power_of_two(n: u32) -> (r: u64)
    requires
        n <= 63,
    ensures
        r == two_pow(n as nat),
{
    proof {
        reveal_with_fuel(two_pow, 64);
        assert(two_pow(63) == 0x8000_0000_0000_0000);
    }
    let mut r: u64 = 1;
    let mut i: u32 = 0;
    while i < n
        invariant
            i <= n <= 63,
            r == two_pow(i as nat),
            two_pow(63) == 0x8000_0000_0000_0000,
        decreases n - i,
    {
        proof {
            lemma_two_pow_mono((i + 1) as nat, 63);
        }
        r = r * 2;
        i = i + 1;
    }
    r
}

/// What came back from one translation request.
pub enum TranslateEvent {
    /// A successful response whose body holds these translations.
    Translated(Vec<String>),
    /// A successful response whose body could not be read; the reason.
    InvalidBody(String),
    /// A response with an unsuccessful HTTP status, as displayed.
    HttpStatus(String),
    /// The request failed; the reason.
    RequestFailed(String),
}

/// What to do next.
pub enum TranslateAction {
    /// Send the request, after waiting this many seconds.
    Send { delay_seconds: u64 },
    /// Stop, with this result.
    Finish(Result<Vec<String>, SubsForgeError>),
}

/// The state of a translation with retries: which attempt is under way, how
/// many are allowed, how many texts were sent, and the last failure.
pub struct TranslateRetry {
    pub attempt: u32,
    pub max_retries: u32,
    pub expected: usize,
    pub last_error: Option<String>,
}

/// The failure that an unsuccessful attempt leaves, or `None` when the attempt
/// ends the translation (translations of the right count, or an unreadable body).
pub open spec fn attempt_failure(expected: usize, event: TranslateEvent) -> Option<Seq<char>> {
    match event {
        TranslateEvent::Translated(v) => if v@.len() == expected {
            None
        } else {
            Some(
                "translation count mismatch: sent "@ + dec(expected as nat) + ", got "@ + dec(
                    v@.len() as nat,
                ),
            )
        },
        TranslateEvent::InvalidBody(_) => None,
        TranslateEvent::HttpStatus(s) => Some("HTTP "@ + s@),
        TranslateEvent::RequestFailed(m) => Some(m@),
    }
}

impl TranslateRetry {
    /// The state has an attempt under way.
    pub open spec fn running(&self) -> bool {
        self.attempt < self.max_retries
    }

    /// Whether `event` is a failed attempt, one that is retried while attempts remain.
    pub fn fails(&self, event: &TranslateEvent) -> (r: bool)
        ensures
            r == attempt_failure(self.expected, *event) is Some,
    {
        match event {
            TranslateEvent::Translated(v) => v.len() != self.expected,
            TranslateEvent::InvalidBody(_) => false,
            TranslateEvent::HttpStatus(_) => true,
            TranslateEvent::RequestFailed(_) => true,
        }
    }

    /// Starts translating `count` texts with at most `max_retries` attempts:
    /// the first request is sent at once; with no attempt allowed, the
    /// translation fails with `unknown error`.
    pub fn start(max_retries: u32, count: usize) -> (r: (TranslateRetry, TranslateAction))
        ensures
            r.0.attempt == 0,
            r.0.max_retries == max_retries,
            r.0.expected == count,
            r.0.last_error is None,
            max_retries > 0 ==> r.0.running() && (r.1 matches TranslateAction::Send { delay_seconds }
                && delay_seconds == 0),
            max_retries == 0 ==> (r.1 matches TranslateAction::Finish(Err(e)) && e matches SubsForgeError::Translation(m) && m@ == "unknown error"@),
    {
        let st = TranslateRetry { attempt: 0, max_retries, expected: count, last_error: None };
        if max_retries == 0 {
            (st, TranslateAction::Finish(Err(SubsForgeError::Translation(String::from_str("unknown error")))))
        } else {
            (st, TranslateAction::Send { delay_seconds: 0 })
        }
    }

    /// Decides what follows an attempt. Translations of the right count are the
    /// result; an unreadable body fails at once; any other outcome is recorded
    /// as the last failure and, while attempts remain, the request is sent again
    /// after `2^attempt` seconds, the attempts counted from 0; when none remain,
    /// the translation fails with the last failure. A wait of `2^64` seconds
    /// does not fit in a `u64`, so no retry follows the attempt numbered 63.
    pub fn step(&mut self, event: TranslateEvent) -> (r: TranslateAction)
        requires
            old(self).running(),
            attempt_failure(old(self).expected, event) is Some && old(self).attempt + 1
                < old(self).max_retries ==> old(self).attempt + 1 < 64,
        ensures
            final(self).max_retries == old(self).max_retries,
            final(self).expected == old(self).expected,
            final(self).attempt <= final(self).max_retries,
            r matches TranslateAction::Send { .. } ==> final(self).running()
                && final(self).attempt == old(self).attempt + 1,
            match event {
                TranslateEvent::Translated(v) => v@.len() == old(self).expected ==> r == TranslateAction::Finish(Ok(v)),
                TranslateEvent::InvalidBody(m) => r matches TranslateAction::Finish(Err(e)) && e matches SubsForgeError::Translation(t) && t@ == "invalid response: "@ + m@,
                _ => true,
            },
            attempt_failure(old(self).expected, event) is None ==> (final(self).attempt
                == old(self).attempt && final(self).last_error == old(self).last_error),
            attempt_failure(old(self).expected, event) matches Some(f) ==> {
                &&& final(self).attempt == old(self).attempt + 1
                &&& final(self).last_error matches Some(l) && l@ == f
                &&& final(self).attempt < final(self).max_retries ==> (final(self).running() && (r matches TranslateAction::Send { delay_seconds } && delay_seconds == two_pow(final(self).attempt as nat)))
                &&& final(self).attempt >= final(self).max_retries ==> (r matches TranslateAction::Finish(Err(e)) && e matches SubsForgeError::Translation(t) && t@ == f)
            },
    {
        let failure = match event {
            TranslateEvent::Translated(v) => {
                if v.len() == self.expected {
                    return TranslateAction::Finish(Ok(v));
                }
                let mut m = String::from_str("translation count mismatch: sent ");
                let a = decimal_string(self.expected as u64);
                m.append(a.as_str());
                m.append(", got ");
                let b = decimal_string(v.len() as u64);
                m.append(b.as_str());
                m
            },
            TranslateEvent::InvalidBody(m) => {
                let mut t = String::from_str("invalid response: ");
                t.append(m.as_str());
                return TranslateAction::Finish(Err(SubsForgeError::Translation(t)));
            },
            TranslateEvent::HttpStatus(s) => {
                let mut t = String::from_str("HTTP ");
                t.append(s.as_str());
                t
            },
            TranslateEvent::RequestFailed(m) => m,
        };
        self.attempt = self.attempt + 1;
        if self.attempt < self.max_retries {
            self.last_error = Some(failure);
            TranslateAction::Send { delay_seconds: power_of_two(self.attempt) }
        } else {
            let reported = failure.clone();
            self.last_error = Some(failure);
            TranslateAction::Finish(Err(SubsForgeError::Translation(reported)))
        }
    }
}

} // verus!
