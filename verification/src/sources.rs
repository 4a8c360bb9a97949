//! The data sources: their configuration, and what each makes of a decoded
//! API response. Fetching over the network and decoding JSON happen outside
//! the library; the sources here receive the decoded records.
use vstd::prelude::*;
use crate::domain::{FerryStatus, RoadStatus, TrailCondition};
use crate::config::{FerrySourceConfig, RoadSourceConfig, TrailSourceConfig};
use crate::text::{
    all_ascii, ascii_lower, ascii_upper, append_chars, append_str, chars_of, chars_eq, is_ascii_uppercase, str_eq, string_from_chars,
    is_whitespace, sub_chars, to_ascii_lower, to_uppercase, uppercase,
};
use crate::wrap::{utf8_len, utf8_width, word_scan, words, split_words, bytes_from, char_width};
use crate::datetime::{nwis_ok, nwis_epoch, parse_nwis_datetime};

verus! {

broadcast use vstd::seq_lib::group_seq_properties;

/// Error returned by a source's fetch.
#[derive(Debug, Clone)]
pub enum SourceError {
    Network(String),
    Parse(String),
    Other(String),
}

/// Seconds the scheduler waits between fetches of the river gauge, the
/// ferry schedule and so on are given per source at construction.
/// Maximum number of retries after a failed request.
pub const MAX_RETRIES: u32 = 4;

/// Wait before retry `attempt` (1-based): 2 s, doubling, at most 300 s.
pub open spec fn backoff_secs(attempt: nat) -> nat
    decreases attempt,
{
    if attempt <= 1 {
        2
    } else {
        let prev = backoff_secs((attempt - 1) as nat);
        if prev * 2 < 300 { prev * 2 } else { 300 }
    }
}

/// The delay before retry `attempt` of a request (1 for the first retry).
pub fn retry_delay_secs(attempt: u32) -> (d: u64)
    ensures
        d == backoff_secs(attempt as nat),
        d <= 300,
{
    let mut d: u64 = 2;
    let mut k: u32 = 1;
    while k < attempt
        invariant
            1 <= k,
            k <= attempt || attempt < 1,
            attempt < 1 ==> k == 1,
            d == backoff_secs(k as nat),
            d <= 300,
        decreases attempt - k,
    {
        d = if d * 2 < 300 { d * 2 } else { 300 };
        k = k + 1;
    }
    d
}

/// How a request failed.
#[derive(Debug, Clone, Copy, PartialEq, Eq, Structural)]
pub enum FetchFailure {
    /// The server answered with this HTTP status.
    Status(u16),
    /// No answer: connection, DNS, TLS or timeout trouble.
    Transport,
}

/// Whether a failure may pass if the request is made again: a server error
/// (HTTP 500 and up) or a transport failure. A client error (4xx) will not.
pub open spec fn is_transient(f: FetchFailure) -> bool {
    match f {
        FetchFailure::Status(code) => code >= 500,
        FetchFailure::Transport => true,
    }
}

/// Whether another attempt follows attempt `attempt` (0-based) of a request
/// that failed with `failure`: only transient failures are retried, at most
/// [`MAX_RETRIES`] times.
pub fn should_retry(attempt: u32, failure: FetchFailure) -> (r: bool)
    ensures
        r == (attempt < MAX_RETRIES && is_transient(failure)),
{
    let transient = match failure {
        FetchFailure::Status(code) => code >= 500,
        FetchFailure::Transport => true,
    };
    attempt < MAX_RETRIES && transient
}

// ── Source configuration ─────────────────────────────────────────────────────

/// USGS river gauge source.
#[derive(Debug, Clone)]
pub struct UsgsSource {
    pub site_id: String,
    pub refresh_secs: u64,
    pub use_fixtures: bool,
}

impl UsgsSource {
    /// A gauge source for `site_id`, fetched every `interval_secs`;
    /// `use_fixtures` marks the source as running in fixture mode, where no
    /// network request is made.
    pub fn new(site_id: &str, interval_secs: u64, use_fixtures: bool) -> (s: Self)
        ensures
            s.site_id@ == site_id@,
            s.refresh_secs == interval_secs,
            s.use_fixtures == use_fixtures,
    {
        UsgsSource { site_id: string_from_chars(chars_of(site_id).as_slice()), refresh_secs: interval_secs, use_fixtures }
    }

    /// Name shown in the web UI and logs.
    pub fn name(&self) -> (r: &'static str)
        ensures
            r@ == "usgs-river"@,
    {
        "usgs-river"
    }

    /// Seconds between fetches.
    pub fn refresh_interval_secs(&self) -> (r: u64)
        ensures
            r == self.refresh_secs,
    {
        self.refresh_secs
    }
}

/// The access code a source uses: none with fixtures, else the configured one,
/// else the one from the environment, else empty.
pub open spec fn chosen_code(use_fixtures: bool, configured: Option<Seq<char>>, env: Option<Seq<char>>) -> Seq<char> {
    if use_fixtures {
        Seq::empty()
    } else {
        match configured {
            Some(c) => c,
            None => match env {
                Some(e) => e,
                None => Seq::empty(),
            },
        }
    }
}

/// A copy of an optional string.
pub(crate) fn copy_opt(o: &Option<String>) -> (r: Option<String>)
    ensures
        match o { Some(a) => r matches Some(b) && b@ == a@, None => r is None },
{
    match o {
        Some(a) => Some(string_from_chars(chars_of(a.as_str()).as_slice())),
        None => None,
    }
}

fn choose_code(use_fixtures: bool, configured: &Option<String>, env: &Option<String>) -> (r: String)
    ensures
        r@ == chosen_code(use_fixtures, match configured { Some(c) => Some(c@), None => None }, match env { Some(e) => Some(e@), None => None }),
{
    if use_fixtures {
        String::new()
    } else {
        match configured {
            Some(c) => string_from_chars(chars_of(c.as_str()).as_slice()),
            None => match env {
                Some(e) => string_from_chars(chars_of(e.as_str()).as_slice()),
                None => String::new(),
            },
        }
    }
}

/// WSDOT ferry schedule source.
#[derive(Debug, Clone)]
pub struct WsdotFerrySource {
    pub access_code: String,
    pub route_id: u32,
    pub route_description: String,
    pub refresh_secs: u64,
    pub use_fixtures: bool,
}

impl WsdotFerrySource {
    /// A ferry source for the configured route (route 9, Anacortes / San Juan
    /// Islands, by default). Without fixtures an access code is needed, from
    /// the configuration or else the environment.
    pub fn new(config: Option<&FerrySourceConfig>, interval_secs: u64, use_fixtures: bool, env_access_code: Option<String>) -> (r: Result<Self, SourceError>)
        ensures
            r matches Ok(s) ==> {
                &&& s.route_id == (match config { Some(c) => c.route_id, None => 9 })
                &&& s.route_description@ == (match config {
                    Some(c) => match c.route_description { Some(d) => d@, None => "Anacortes / San Juan Islands"@ },
                    None => "Anacortes / San Juan Islands"@,
                })
                &&& s.refresh_secs == interval_secs
                &&& s.use_fixtures == use_fixtures
            },
            r is Ok <==> (use_fixtures || chosen_code(false, match config { Some(c) => match c.wsdot_access_code { Some(a) => Some(a@), None => None }, None => None },
                match env_access_code { Some(e) => Some(e@), None => None }).len() > 0),
            r matches Err(e) ==> e is Other,
    {
        let route_id = match config { Some(c) => c.route_id, None => 9 };
        let route_description = match config {
            Some(c) => match &c.route_description {
                Some(d) => string_from_chars(chars_of(d.as_str()).as_slice()),
                None => "Anacortes / San Juan Islands".to_string(),
            },
            None => "Anacortes / San Juan Islands".to_string(),
        };
        let configured: Option<String> = match config { Some(c) => copy_opt(&c.wsdot_access_code), None => None };
        let access_code = choose_code(use_fixtures, &configured, &env_access_code);
        if !use_fixtures && access_code.as_str().unicode_len() == 0 {
            return Err(SourceError::Other(
                "WSDOT access code not set: configure wsdot_access_code in config.toml or set WSDOT_ACCESS_CODE env var".to_string(),
            ));
        }
        Ok(WsdotFerrySource { access_code, route_id, route_description, refresh_secs: interval_secs, use_fixtures })
    }
}


/// WSDOT highway alert source.
#[derive(Debug, Clone)]
pub struct RoadClosuresSource {
    pub access_code: String,
    /// WSDOT route numbers to monitor, e.g. ["020", "005"].
    pub routes: Vec<String>,
    pub refresh_secs: u64,
    pub use_fixtures: bool,
}

/// A copy of a vector of strings.
fn copy_strings(v: &Vec<String>) -> (r: Vec<String>)
    ensures
        r.deep_view() == v.deep_view(),
{
    let mut r: Vec<String> = Vec::new();
    let mut i: usize = 0;
    while i < v.len()
        invariant
            i <= v@.len(),
            r.deep_view() == v.deep_view().take(i as int),
        decreases v.len() - i,
    {
        let ghost r0 = r.deep_view();
        let c = string_from_chars(chars_of(v[i].as_str()).as_slice());
        let ghost cv = c@;
        r.push(c);
        assert(r.deep_view() =~= r0.push(cv));
        assert(v.deep_view().take(i + 1) =~= v.deep_view().take(i as int).push(v@[i as int]@));
        assert(r.deep_view() =~= v.deep_view().take(i + 1));
        i = i + 1;
    }
    assert(v.deep_view().take(v@.len() as int) =~= v.deep_view());
    r
}

impl RoadClosuresSource {
    /// A road source for the configured routes (route "020" when none are
    /// configured). Without fixtures an access code is needed.
    pub fn new(config: Option<&RoadSourceConfig>, interval_secs: u64, use_fixtures: bool, env_access_code: Option<String>) -> (r: Result<Self, SourceError>)
        ensures
            r matches Ok(s) ==> {
                &&& s.routes.deep_view() == (match config {
                    Some(c) => if c.routes@.len() > 0 { c.routes.deep_view() } else { seq!["020"@] },
                    None => seq!["020"@],
                })
                &&& s.refresh_secs == interval_secs
                &&& s.use_fixtures == use_fixtures
            },
            r is Ok <==> (use_fixtures || chosen_code(false, match config { Some(c) => match c.wsdot_access_code { Some(a) => Some(a@), None => None }, None => None },
                match env_access_code { Some(e) => Some(e@), None => None }).len() > 0),
            r matches Err(e) ==> e is Other,
    {
        let routes = match config {
            Some(c) => if c.routes.len() > 0 {
                copy_strings(&c.routes)
            } else {
                let mut v: Vec<String> = Vec::new();
                v.push("020".to_string());
                assert(v.deep_view() =~= seq!["020"@]);
                v
            },
            None => {
                let mut v: Vec<String> = Vec::new();
                v.push("020".to_string());
                assert(v.deep_view() =~= seq!["020"@]);
                v
            },
        };
        let configured: Option<String> = match config { Some(c) => copy_opt(&c.wsdot_access_code), None => None };
        let access_code = choose_code(use_fixtures, &configured, &env_access_code);
        if !use_fixtures && access_code.as_str().unicode_len() == 0 {
            return Err(SourceError::Other(
                "WSDOT access code not set: configure wsdot_access_code in config.toml or set WSDOT_ACCESS_CODE env var".to_string(),
            ));
        }
        Ok(RoadClosuresSource { access_code, routes, refresh_secs: interval_secs, use_fixtures })
    }

    pub fn name(&self) -> (r: &'static str)
        ensures
            r@ == "road-closures"@,
    {
        "road-closures"
    }

    pub fn refresh_interval_secs(&self) -> (r: u64)
        ensures
            r == self.refresh_secs,
    {
        self.refresh_secs
    }
}

/// NPS trail alert source.
#[derive(Debug, Clone)]
pub struct TrailConditionsSource {
    pub park_code: String,
    pub api_key: String,
    pub refresh_secs: u64,
    pub use_fixtures: bool,
}

impl TrailConditionsSource {
    /// A trail source for the configured park ("noca", North Cascades, by
    /// default). Without fixtures an API key is needed.
    pub fn new(config: Option<&TrailSourceConfig>, interval_secs: u64, use_fixtures: bool, env_api_key: Option<String>) -> (r: Result<Self, SourceError>)
        ensures
            r matches Ok(s) ==> {
                &&& s.park_code@ == (match config { Some(c) => c.park_code@, None => "noca"@ })
                &&& s.refresh_secs == interval_secs
                &&& s.use_fixtures == use_fixtures
            },
            r is Ok <==> (use_fixtures || chosen_code(false, match config { Some(c) => match c.nps_api_key { Some(a) => Some(a@), None => None }, None => None },
                match env_api_key { Some(e) => Some(e@), None => None }).len() > 0),
            r matches Err(e) ==> e is Other,
    {
        let park_code = match config {
            Some(c) => string_from_chars(chars_of(c.park_code.as_str()).as_slice()),
            None => "noca".to_string(),
        };
        let configured: Option<String> = match config { Some(c) => copy_opt(&c.nps_api_key), None => None };
        let api_key = choose_code(use_fixtures, &configured, &env_api_key);
        if !use_fixtures && api_key.as_str().unicode_len() == 0 {
            return Err(SourceError::Other(
                "NPS API key not set: configure nps_api_key in config.toml or set NPS_API_KEY env var".to_string(),
            ));
        }
        Ok(TrailConditionsSource { park_code, api_key, refresh_secs: interval_secs, use_fixtures })
    }

    pub fn name(&self) -> (r: &'static str)
        ensures
            r@ == "trail-conditions"@,
    {
        "trail-conditions"
    }

    pub fn refresh_interval_secs(&self) -> (r: u64)
        ensures
            r == self.refresh_secs,
    {
        self.refresh_secs
    }
}

impl WsdotFerrySource {
    pub fn name(&self) -> (r: &'static str)
        ensures
            r@ == "wsdot-ferries"@,
    {
        "wsdot-ferries"
    }

    pub fn refresh_interval_secs(&self) -> (r: u64)
        ensures
            r == self.refresh_secs,
    {
        self.refresh_secs
    }
}

// ── Road names ───────────────────────────────────────────────────────────────

/// Number of leading '0' characters of `s[i..]`.
pub open spec fn zeros_from(s: Seq<char>, i: int) -> int
    decreases s.len() - i,
{
    if 0 <= i < s.len() && s[i] == '0' {
        1 + zeros_from(s, i + 1)
    } else {
        0
    }
}

/// Human-readable name of a WSDOT route number.
pub open spec fn road_name_of(route: Seq<char>) -> Seq<char> {
    if route == "005"@ {
        "I-5"@
    } else if route == "020"@ {
        "SR-20 North Cascades Hwy"@
    } else if route == "530"@ {
        "SR-530"@
    } else if route == "009"@ {
        "SR-9"@
    } else if route == "011"@ {
        "SR-11 Chuckanut Dr"@
    } else {
        "SR-"@ + route.skip(zeros_from(route, 0))
    }
}

/// Map a WSDOT route number to a human-readable road name.
pub fn format_road_name(route_num: &str) -> (r: String)
    ensures
        r@ == road_name_of(route_num@),
{
    if str_eq(route_num, "005") {
        "I-5".to_string()
    } else if str_eq(route_num, "020") {
        "SR-20 North Cascades Hwy".to_string()
    } else if str_eq(route_num, "530") {
        "SR-530".to_string()
    } else if str_eq(route_num, "009") {
        "SR-9".to_string()
    } else if str_eq(route_num, "011") {
        "SR-11 Chuckanut Dr".to_string()
    } else {
        let cs = chars_of(route_num);
        let mut i: usize = 0;
        while i < cs.len() && cs[i] == '0'
            invariant
                i <= cs@.len(),
                zeros_from(cs@, 0) == i + zeros_from(cs@, i as int),
            decreases cs.len() - i,
        {
            i = i + 1;
        }
        let mut v = chars_of("SR-");
        let rest = sub_chars(cs.as_slice(), i, cs.len());
        assert(rest@ =~= cs@.skip(i as int));
        append_chars(&mut v, rest.as_slice());
        string_from_chars(v.as_slice())
    }
}

// ── Title case ───────────────────────────────────────────────────────────────

/// What `char::to_uppercase` yields for a character: its Unicode uppercase
/// mapping, one to three characters.
pub uninterp spec fn char_upper(c: char) -> Seq<char>;

/// The Unicode uppercase form of one character.
///
/// Trusted: collects `char::to_uppercase`; the result is a function of the
/// character alone, named [`char_upper`]. Of an ASCII character it states what
/// std documents: `a`..`z` map to `A`..`Z` and any other ASCII character,
/// which has no uppercase mapping, is yielded unchanged.
#[verifier::external_body]
fn upper_of_char(c: char) -> (r: String)
    ensures
        r@ == char_upper(c),
        (c as u32) < 0x80 ==> r@ == seq![ascii_upper(c)],
{
    c.to_uppercase().collect::<String>()
}

/// A word in title case: kept when it is at most two bytes of capitals (a
/// state abbreviation), else its first character in upper case and the
/// rest in ASCII lower case.
pub open spec fn title_word(w: Seq<char>) -> Seq<char> {
    if utf8_len(w) <= 2 && (forall|i: int| 0 <= i < w.len() ==> is_ascii_uppercase(#[trigger] w[i])) {
        w
    } else if w.len() == 0 {
        Seq::empty()
    } else {
        char_upper(w[0]) + w.skip(1).map_values(|c: char| ascii_lower(c))
    }
}

/// [`title_word`] of ASCII text, where the upper case of the first letter is
/// its ASCII capital.
pub open spec fn ascii_title_word(w: Seq<char>) -> Seq<char> {
    if utf8_len(w) <= 2 && (forall|i: int| 0 <= i < w.len() ==> is_ascii_uppercase(#[trigger] w[i])) {
        w
    } else if w.len() == 0 {
        Seq::empty()
    } else {
        seq![ascii_upper(w[0])] + w.skip(1).map_values(|c: char| ascii_lower(c))
    }
}

/// The words joined with single spaces.
pub open spec fn join_spaced(ws: Seq<Seq<char>>) -> Seq<char>
    decreases ws.len(),
{
    if ws.len() == 0 {
        Seq::empty()
    } else if ws.len() == 1 {
        ws[0]
    } else {
        join_spaced(ws.drop_last()) + seq![' '] + ws.last()
    }
}

/// The title-case form of a whole string.
pub open spec fn title_case_of(s: Seq<char>) -> Seq<char> {
    join_spaced(words(s).map_values(|w: Seq<char>| title_word(w)))
}

/// [`title_case_of`] of ASCII text.
pub open spec fn ascii_title_case_of(s: Seq<char>) -> Seq<char> {
    join_spaced(words(s).map_values(|w: Seq<char>| ascii_title_word(w)))
}

/// The words of ASCII text are ASCII.
proof fn lemma_words_ascii(s: Seq<char>)
    requires
        all_ascii(s),
    ensures
        forall|i: int| 0 <= i < words(s).len() ==> all_ascii(#[trigger] words(s)[i]),
{
    lemma_word_scan_ascii(s);
    let (done, cur) = word_scan(s);
    if cur.len() > 0 {
        assert forall|i: int| 0 <= i < done.push(cur).len() implies all_ascii(#[trigger] done.push(cur)[i]) by {
            if i < done.len() {
                assert(done.push(cur)[i] == done[i]);
            }
        }
    }
}

proof fn lemma_word_scan_ascii(s: Seq<char>)
    requires
        all_ascii(s),
    ensures
        forall|i: int| 0 <= i < word_scan(s).0.len() ==> all_ascii(#[trigger] word_scan(s).0[i]),
        all_ascii(word_scan(s).1),
    decreases s.len(),
{
    if s.len() > 0 {
        let t = s.drop_last();
        assert(all_ascii(t)) by {
            assert forall|i: int| 0 <= i < t.len() implies (#[trigger] t[i] as u32) < 0x80 by {
                assert(t[i] == s[i]);
            }
        }
        lemma_word_scan_ascii(t);
        let (done, cur) = word_scan(t);
        let c = s.last();
        assert((s[s.len() - 1] as u32) < 0x80);
        if !is_whitespace(c) {
            assert forall|i: int| 0 <= i < cur.push(c).len() implies (#[trigger] cur.push(c)[i] as u32) < 0x80 by {
                if i < cur.len() {
                    assert(cur.push(c)[i] == cur[i]);
                }
            }
        } else if cur.len() > 0 {
            assert forall|i: int| 0 <= i < done.push(cur).len() implies all_ascii(#[trigger] done.push(cur)[i]) by {
                if i < done.len() {
                    assert(done.push(cur)[i] == done[i]);
                }
            }
        }
    }
}

fn title_word_exec(w: &Vec<char>) -> (r: Vec<char>)
    ensures
        r@ == title_word(w@),
        all_ascii(w@) ==> r@ == ascii_title_word(w@),
{
    let n = bytes_from(w, 0);
    assert(w@.skip(0) =~= w@);
    let mut all_upper = true;
    let mut i: usize = 0;
    while i < w.len()
        invariant
            i <= w@.len(),
            all_upper == (forall|k: int| 0 <= k < i ==> is_ascii_uppercase(#[trigger] w@[k])),
        decreases w.len() - i,
    {
        if !('A' <= w[i] && w[i] <= 'Z') {
            all_upper = false;
        }
        i = i + 1;
    }
    if n <= 2 && all_upper {
        return w.clone();
    }
    if w.len() == 0 {
        return Vec::new();
    }
    let first = upper_of_char(w[0]);
    let mut out = chars_of(first.as_str());
    let ghost head = out@;
    let mut k: usize = 1;
    while k < w.len()
        invariant
            1 <= k <= w@.len(),
            out@ == head + w@.subrange(1, k as int).map_values(|c: char| ascii_lower(c)),
        decreases w.len() - k,
    {
        out.push(to_ascii_lower(w[k]));
        assert(w@.subrange(1, k + 1).map_values(|c: char| ascii_lower(c)) =~= w@.subrange(1, k as int).map_values(|c: char| ascii_lower(c)).push(ascii_lower(w@[k as int])));
        k = k + 1;
    }
    assert(w@.subrange(1, w@.len() as int) =~= w@.skip(1));
    out
}

/// Convert an all-caps site name such as "SKAGIT RIVER NEAR MOUNT VERNON, WA"
/// to title case: "Skagit River Near Mount Vernon, WA".
pub fn title_case(s: &str) -> (r: String)
    ensures
        r@ == title_case_of(s@),
        all_ascii(s@) ==> r@ == ascii_title_case_of(s@),
{
    let cs = chars_of(s);
    let ws = split_words(&cs);
    let ghost wv = ws.deep_view();
    let ghost tw = wv.map_values(|w: Seq<char>| title_word(w));
    let mut out: Vec<char> = Vec::new();
    let mut i: usize = 0;
    assert(tw.take(0) =~= Seq::<Seq<char>>::empty());
    while i < ws.len()
        invariant
            i <= ws@.len(),
            wv == ws.deep_view(),
            tw == wv.map_values(|w: Seq<char>| title_word(w)),
            out@ == join_spaced(tw.take(i as int)),
            wv == words(s@),
            all_ascii(s@) ==> forall|k: int| 0 <= k < i ==> #[trigger] tw[k] == ascii_title_word(wv[k]),
        decreases ws.len() - i,
    {
        assert(ws[i as int]@ == wv[i as int]);
        proof {
            if all_ascii(s@) {
                lemma_words_ascii(s@);
            }
        }
        let t = title_word_exec(&ws[i]);
        assert(tw.take(i + 1).drop_last() =~= tw.take(i as int));
        if i > 0 {
            out.push(' ');
        } else {
            assert(out@ =~= Seq::<char>::empty());
        }
        append_chars(&mut out, t.as_slice());
        proof {
            if i == 0 {
                assert(out@ =~= t@);
            }
        }
        i = i + 1;
    }
    assert(tw.take(ws@.len() as int) =~= tw);
    proof {
        if all_ascii(s@) {
            assert(tw =~= wv.map_values(|w: Seq<char>| ascii_title_word(w)));
        }
    }
    string_from_chars(out.as_slice())
}

// ── Cutting long text at a byte count ─────────────────────────────────────────

/// The number of leading characters of `s` that fit in `keep` bytes of
/// UTF-8: characters are taken while the next one still fits, so the cut
/// always falls on a character boundary, at or before byte `keep`.
pub open spec fn prefix_within(s: Seq<char>, keep: int) -> int
    decreases s.len(),
{
    if s.len() == 0 || utf8_width(s[0]) > keep {
        0
    } else {
        1 + prefix_within(s.skip(1), keep - utf8_width(s[0]))
    }
}

/// `s` cut to the characters that fit in its first `keep` bytes, with
/// `suffix` appended, when it is longer than `limit` bytes; else `s` itself.
pub open spec fn truncated(s: Seq<char>, limit: int, keep: int, suffix: Seq<char>) -> Seq<char> {
    if utf8_len(s) > limit {
        s.take(prefix_within(s, keep)) + suffix
    } else {
        s
    }
}

/// The prefix kept by [`prefix_within`] holds at most `keep` bytes, and the
/// character after it, if any, would not fit.
pub proof fn lemma_prefix_within(s: Seq<char>, keep: int)
    requires
        keep >= 0,
    ensures
        0 <= prefix_within(s, keep) <= s.len(),
        utf8_len(s.take(prefix_within(s, keep))) <= keep,
        prefix_within(s, keep) < s.len() ==> utf8_len(s.take(prefix_within(s, keep) + 1)) > keep,
    decreases s.len(),
{
    if s.len() > 0 && utf8_width(s[0]) <= keep {
        let t = s.skip(1);
        let w = utf8_width(s[0]);
        lemma_prefix_within(t, keep - w);
        let p = prefix_within(t, keep - w);
        lemma_utf8_len_cons(s[0], t.take(p));
        assert(s.take(p + 1) =~= seq![s[0]] + t.take(p));
        if p < t.len() {
            lemma_utf8_len_cons(s[0], t.take(p + 1));
            assert(s.take(p + 2) =~= seq![s[0]] + t.take(p + 1));
        }
    } else if s.len() > 0 {
        assert(s.take(1) =~= seq![s[0]]);
        assert(s.take(1).drop_last() =~= Seq::<char>::empty());
        assert(s.take(0) =~= Seq::<char>::empty());
    } else {
        assert(s.take(0) =~= Seq::<char>::empty());
    }
}

/// The byte length of a character followed by a text.
proof fn lemma_utf8_len_cons(c: char, t: Seq<char>)
    ensures
        utf8_len(seq![c] + t) == utf8_width(c) + utf8_len(t),
    decreases t.len(),
{
    if t.len() == 0 {
        assert(seq![c] + t =~= seq![c]);
        assert(seq![c].drop_last() =~= Seq::<char>::empty());
    } else {
        lemma_utf8_len_cons(c, t.drop_last());
        assert((seq![c] + t).drop_last() =~= seq![c] + t.drop_last());
    }
}

/// `s` cut for the display; see [`truncated`].
fn truncate_text(s: &str, limit: usize, keep: usize, suffix: &str) -> (r: Vec<char>)
    ensures
        r@ == truncated(s@, limit as int, keep as int, suffix@),
{
    let cs = chars_of(s);
    let n = bytes_from(&cs, 0);
    assert(cs@.skip(0) =~= cs@);
    if n > limit as u128 {
        let mut j: usize = 0;
        let mut room: u128 = keep as u128;
        while j < cs.len() && char_width(cs[j]) <= room
            invariant
                j <= cs@.len(),
                room <= keep,
                prefix_within(cs@, keep as int) == j + prefix_within(cs@.skip(j as int), room as int),
            decreases cs.len() - j,
        {
            let w = char_width(cs[j]);
            assert(cs@.skip(j as int).skip(1) =~= cs@.skip(j + 1));
            room = room - w;
            j = j + 1;
        }
        assert(prefix_within(cs@.skip(j as int), room as int) == 0);
        let mut v = sub_chars(cs.as_slice(), 0, j);
        assert(v@ =~= cs@.take(prefix_within(cs@, keep as int)));
        append_str(&mut v, suffix);
        v
    } else {
        cs
    }
}

// ── Trail alerts ─────────────────────────────────────────────────────────────

/// One alert of the NPS alerts response.
#[derive(Debug, Clone)]
pub struct NpsAlert {
    pub title: String,
    pub description: String,
    pub category: String,
}

/// The summary line of a trail alert: "[Category] description", the
/// description cut to the characters within its first 117 bytes and marked
/// "…" when longer than 120 bytes.
pub open spec fn trail_summary_of(category: Seq<char>, description: Seq<char>) -> Seq<char> {
    "["@ + category + "] "@ + truncated(description, 120, 117, "…"@)
}

/// Cutting long text keeps whole characters: text of at most `limit` bytes
/// is kept as it is; longer text becomes its longest prefix of whole
/// characters within `keep` bytes, followed by `suffix`.
pub proof fn law_truncated_keeps_whole_characters(s: Seq<char>, limit: int, keep: int, suffix: Seq<char>)
    requires
        0 <= keep,
    ensures
        utf8_len(s) <= limit ==> truncated(s, limit, keep, suffix) == s,
        utf8_len(s) > limit ==> exists|k: int| 0 <= k <= s.len()
            && truncated(s, limit, keep, suffix) == s.take(k) + suffix
            && #[trigger] utf8_len(s.take(k)) <= keep
            && (k < s.len() ==> utf8_len(s.take(k + 1)) > keep),
{
    lemma_prefix_within(s, keep);
    let k = prefix_within(s, keep);
    if utf8_len(s) > limit {
        assert(truncated(s, limit, keep, suffix) == s.take(k) + suffix);
        assert(utf8_len(s.take(k)) <= keep);
    }
}

/// The summary of a trail alert is "[category] description", the
/// description cut to its whole characters within 117 bytes and marked with
/// "…" when it is longer than 120 bytes.
pub proof fn law_trail_summary_shape(category: Seq<char>, description: Seq<char>)
    ensures
        utf8_len(description) <= 120 ==> trail_summary_of(category, description) == "["@ + category + "] "@ + description,
        utf8_len(description) > 120 ==> exists|k: int| 0 <= k <= description.len()
            && trail_summary_of(category, description) == "["@ + category + "] "@ + description.take(k) + "…"@
            && #[trigger] utf8_len(description.take(k)) <= 117
            && (k < description.len() ==> utf8_len(description.take(k + 1)) > 117),
{
    law_truncated_keeps_whole_characters(description, 120, 117, "…"@);
    if utf8_len(description) > 120 {
        let k = choose|k: int| 0 <= k <= description.len()
            && truncated(description, 120, 117, "…"@) == description.take(k) + "…"@
            && #[trigger] utf8_len(description.take(k)) <= 117
            && (k < description.len() ==> utf8_len(description.take(k + 1)) > 117);
        assert("["@ + category + "] "@ + (description.take(k) + "…"@) =~= "["@ + category + "] "@ + description.take(k) + "…"@);
    }
}

/// The summary line of a trail alert for the e-ink display.
pub fn trail_summary(category: &str, description: &str) -> (r: String)
    ensures
        r@ == trail_summary_of(category@, description@),
{
    let mut v = chars_of("[");
    append_str(&mut v, category);
    append_str(&mut v, "] ");
    let d = truncate_text(description, 120, 117, "…");
    append_chars(&mut v, d.as_slice());
    string_from_chars(v.as_slice())
}

/// Whether an alert is of a category that marks trail trouble.
pub open spec fn is_warning_alert(a: NpsAlert) -> bool {
    a.category@ == "Caution"@ || a.category@ == "Danger"@
}

/// Index of the first warning alert at or after `i`.
pub open spec fn warning_from(alerts: Seq<NpsAlert>, i: int) -> Option<int>
    decreases alerts.len() - i,
{
    if i < 0 || i >= alerts.len() {
        None
    } else if is_warning_alert(alerts[i]) {
        Some(i)
    } else {
        warning_from(alerts, i + 1)
    }
}

/// The alert shown: the first warning, else the first alert.
pub open spec fn chosen_alert(alerts: Seq<NpsAlert>) -> Option<int> {
    match warning_from(alerts, 0) {
        Some(i) => Some(i),
        None => if alerts.len() > 0 { Some(0) } else { None },
    }
}

/// A warning comes first: when some alert's category is "Caution" or
/// "Danger", the alert shown is the first such alert, and no earlier alert
/// is one. Without any, the first alert is shown, and none at all for an
/// empty list.
pub proof fn law_warning_alert_preferred(alerts: Seq<NpsAlert>)
    ensures
        (exists|j: int| 0 <= j < alerts.len() && (#[trigger] alerts[j].category@ == "Caution"@ || alerts[j].category@ == "Danger"@))
            ==> (chosen_alert(alerts) matches Some(i) && 0 <= i < alerts.len()
                && (alerts[i].category@ == "Caution"@ || alerts[i].category@ == "Danger"@)
                && forall|k: int| 0 <= k < i ==> !(#[trigger] alerts[k].category@ == "Caution"@ || alerts[k].category@ == "Danger"@)),
        (forall|j: int| 0 <= j < alerts.len() ==> !(#[trigger] alerts[j].category@ == "Caution"@ || alerts[j].category@ == "Danger"@))
            ==> chosen_alert(alerts) == (if alerts.len() > 0 { Some(0int) } else { None::<int> }),
{
    lemma_warning_from(alerts, 0);
}

/// What `warning_from` finds from `i`: the first alert at or after `i` with
/// a warning category, or none when there is none.
proof fn lemma_warning_from(alerts: Seq<NpsAlert>, i: int)
    requires
        0 <= i <= alerts.len(),
    ensures
        match warning_from(alerts, i) {
            Some(w) => i <= w < alerts.len() && (alerts[w].category@ == "Caution"@ || alerts[w].category@ == "Danger"@)
                && forall|k: int| i <= k < w ==> !(#[trigger] alerts[k].category@ == "Caution"@ || alerts[k].category@ == "Danger"@),
            None => forall|k: int| i <= k < alerts.len() ==> !(#[trigger] alerts[k].category@ == "Caution"@ || alerts[k].category@ == "Danger"@),
        },
    decreases alerts.len() - i,
{
    if i < alerts.len() {
        lemma_warning_from(alerts, i + 1);
    }
}

/// The trail condition shown for the park's alerts at time `now`.
pub fn trail_condition_from_alerts(alerts: &Vec<NpsAlert>, park_code: &str, now: u64) -> (c: TrailCondition)
    ensures
        c.last_updated == now,
        match chosen_alert(alerts@) {
            Some(i) => c.destination_name@ == alerts@[i].title@
                && c.suitability_summary@ == trail_summary_of(alerts@[i].category@, alerts@[i].description@),
            None => c.destination_name@ == "NPS "@ + uppercase(park_code@)
                && c.suitability_summary@ == "No active alerts"@,
        },
        chosen_alert(alerts@) is None && all_ascii(park_code@)
            ==> c.destination_name@ == "NPS "@ + park_code@.map_values(|ch: char| ascii_upper(ch)),
{
    let mut i: usize = 0;
    let mut found: Option<usize> = None;
    while i < alerts.len()
        invariant
            i <= alerts@.len(),
            found is None ==> warning_from(alerts@, 0) == warning_from(alerts@, i as int),
            found matches Some(k) ==> warning_from(alerts@, 0) == Some(k as int) && k < alerts@.len(),
        decreases alerts.len() - i,
    {
        if found.is_none() {
            let a = &alerts[i];
            if str_eq(a.category.as_str(), "Caution") || str_eq(a.category.as_str(), "Danger") {
                found = Some(i);
            }
        }
        i = i + 1;
    }
    let pick: Option<usize> = match found {
        Some(k) => Some(k),
        None => if alerts.len() > 0 { Some(0) } else { None },
    };
    match pick {
        Some(k) => {
            let a = &alerts[k];
            TrailCondition {
                destination_name: string_from_chars(chars_of(a.title.as_str()).as_slice()),
                suitability_summary: trail_summary(a.category.as_str(), a.description.as_str()),
                last_updated: now,
            }
        },
        None => {
            let upper = to_uppercase(park_code);
            let mut v = chars_of("NPS ");
            append_str(&mut v, upper.as_str());
            TrailCondition {
                destination_name: string_from_chars(v.as_slice()),
                suitability_summary: "No active alerts".to_string(),
                last_updated: now,
            }
        },
    }
}


// ── Road alerts ──────────────────────────────────────────────────────────────

/// One alert of the WSDOT highway alerts response, mile posts rounded to
/// whole miles.
#[derive(Debug, Clone)]
pub struct HighwayAlert {
    pub event_category: String,
    pub headline_description: String,
    pub start_road_name: String,
    pub start_mile_post: i64,
    pub start_description: String,
    pub end_mile_post: i64,
    pub end_description: String,
}

/// Whether the alert is a closure on one of the monitored routes.
pub open spec fn is_route_closure(routes: Seq<Seq<char>>, a: HighwayAlert) -> bool {
    routes.contains(a.start_road_name@) && a.event_category@ == "Closure"@
}

/// Index of the first closure on a monitored route at or after `i`.
pub open spec fn closure_from(routes: Seq<Seq<char>>, alerts: Seq<HighwayAlert>, i: int) -> Option<int>
    decreases alerts.len() - i,
{
    if i < 0 || i >= alerts.len() {
        None
    } else if is_route_closure(routes, alerts[i]) {
        Some(i)
    } else {
        closure_from(routes, alerts, i + 1)
    }
}

/// A closure on any monitored route is reported: when some alert is a
/// "Closure" whose road is one of `routes` (any of them, not only the
/// first), the alert reported is the first such alert, and it is a closure
/// on a monitored road.
pub proof fn law_closure_on_any_route(routes: Seq<Seq<char>>, alerts: Seq<HighwayAlert>, j: int, r: int)
    requires
        0 <= j < alerts.len(),
        0 <= r < routes.len(),
        routes[r] == alerts[j].start_road_name@,
        alerts[j].event_category@ == "Closure"@,
    ensures
        closure_from(routes, alerts, 0) matches Some(i) && 0 <= i <= j
            && alerts[i].event_category@ == "Closure"@
            && (exists|q: int| 0 <= q < routes.len() && #[trigger] routes[q] == alerts[i].start_road_name@)
            && forall|k: int| 0 <= k < i ==> !(#[trigger] alerts[k].event_category@ == "Closure"@
                && exists|q: int| 0 <= q < routes.len() && #[trigger] routes[q] == alerts[k].start_road_name@),
{
    lemma_closure_from(routes, alerts, 0);
    assert(routes.contains(alerts[j].start_road_name@));
    match closure_from(routes, alerts, 0) {
        Some(i) => {
            assert(routes.contains(alerts[i].start_road_name@));
            assert forall|k: int| 0 <= k < i implies !(#[trigger] alerts[k].event_category@ == "Closure"@
                && exists|q: int| 0 <= q < routes.len() && #[trigger] routes[q] == alerts[k].start_road_name@) by {
                if alerts[k].event_category@ == "Closure"@ && exists|q: int| 0 <= q < routes.len() && #[trigger] routes[q] == alerts[k].start_road_name@ {
                    let q = choose|q: int| 0 <= q < routes.len() && #[trigger] routes[q] == alerts[k].start_road_name@;
                    assert(routes.contains(alerts[k].start_road_name@));
                }
            }
        },
        None => {
            assert(is_route_closure(routes, alerts[j]));
        },
    }
}

/// What `closure_from` finds from `i`: the first monitored-route closure at
/// or after `i`, or none when there is none.
proof fn lemma_closure_from(routes: Seq<Seq<char>>, alerts: Seq<HighwayAlert>, i: int)
    requires
        0 <= i <= alerts.len(),
    ensures
        match closure_from(routes, alerts, i) {
            Some(w) => i <= w < alerts.len() && is_route_closure(routes, alerts[w])
                && forall|k: int| i <= k < w ==> !is_route_closure(routes, #[trigger] alerts[k]),
            None => forall|k: int| i <= k < alerts.len() ==> !is_route_closure(routes, #[trigger] alerts[k]),
        },
    decreases alerts.len() - i,
{
    if i < alerts.len() {
        lemma_closure_from(routes, alerts, i + 1);
    }
}

/// "MP a (from) to MP b (to)".
pub open spec fn segment_text(a: HighwayAlert) -> Seq<char> {
    "MP "@ + crate::text::signed_decimal(a.start_mile_post as int) + " ("@ + a.start_description@ + ") to MP "@
        + crate::text::signed_decimal(a.end_mile_post as int) + " ("@ + a.end_description@ + ")"@
}

/// Whether `name` is one of the routes.
fn route_listed(routes: &Vec<String>, name: &str) -> (r: bool)
    ensures
        r == routes.deep_view().contains(name@),
{
    let mut i: usize = 0;
    while i < routes.len()
        invariant
            i <= routes@.len(),
            forall|k: int| 0 <= k < i ==> routes.deep_view()[k] != name@,
        decreases routes.len() - i,
    {
        if str_eq(routes[i].as_str(), name) {
            assert(routes.deep_view()[i as int] == name@);
            return true;
        }
        i = i + 1;
    }
    false
}

/// The road status for the monitored routes at time `now`: the first closure
/// on one of them, or "No active closures" on the first route.
pub fn road_status_from_alerts(routes: &Vec<String>, alerts: &Vec<HighwayAlert>, now: u64) -> (r: RoadStatus)
    ensures
        r.timestamp == now,
        match closure_from(routes.deep_view(), alerts@, 0) {
            Some(i) => {
                &&& r.road_name@ == road_name_of(alerts@[i].start_road_name@)
                &&& r.status@ == truncated(alerts@[i].headline_description@, 80, 77, "..."@)
                &&& r.affected_segment@ == segment_text(alerts@[i])
            },
            None => {
                &&& r.road_name@ == if routes@.len() > 0 { road_name_of(routes@[0]@) } else { "Highway"@ }
                &&& r.status@ == "No active closures"@
                &&& r.affected_segment@ == Seq::<char>::empty()
            },
        },
{
    let ghost rv = routes.deep_view();
    let mut i: usize = 0;
    while i < alerts.len()
        invariant
            i <= alerts@.len(),
            rv == routes.deep_view(),
            closure_from(rv, alerts@, 0) == closure_from(rv, alerts@, i as int),
        decreases alerts.len() - i,
    {
        let a = &alerts[i];
        if route_listed(routes, a.start_road_name.as_str()) && str_eq(a.event_category.as_str(), "Closure") {
            let road_name = format_road_name(a.start_road_name.as_str());
            let mut seg = chars_of("MP ");
            append_str(&mut seg, crate::text::i64_to_string(a.start_mile_post).as_str());
            append_str(&mut seg, " (");
            append_str(&mut seg, a.start_description.as_str());
            append_str(&mut seg, ") to MP ");
            append_str(&mut seg, crate::text::i64_to_string(a.end_mile_post).as_str());
            append_str(&mut seg, " (");
            append_str(&mut seg, a.end_description.as_str());
            append_str(&mut seg, ")");
            let status = truncate_text(a.headline_description.as_str(), 80, 77, "...");
            return RoadStatus {
                road_name,
                status: string_from_chars(status.as_slice()),
                affected_segment: string_from_chars(seg.as_slice()),
                timestamp: now,
            };
        }
        i = i + 1;
    }
    let road_name = if routes.len() > 0 {
        format_road_name(routes[0].as_str())
    } else {
        "Highway".to_string()
    };
    RoadStatus {
        road_name,
        status: "No active closures".to_string(),
        affected_segment: String::new(),
        timestamp: now,
    }
}

// ── Ferry schedule ───────────────────────────────────────────────────────────

/// One sailing of the WSDOT schedule response.
#[derive(Debug, Clone)]
pub struct SailingTime {
    pub departing_time: String,
    pub vessel_name: String,
}

/// One terminal pair of the WSDOT schedule response.
#[derive(Debug, Clone)]
pub struct TerminalCombo {
    pub departing_terminal_name: String,
    pub arriving_terminal_name: String,
    pub times: Vec<SailingTime>,
}

/// The departure times of the sailings that carry a readable timestamp.
pub open spec fn departures_of(times: Seq<SailingTime>) -> Seq<u64>
    decreases times.len(),
{
    if times.len() == 0 {
        Seq::empty()
    } else {
        let rest = departures_of(times.drop_last());
        match crate::datetime::wsdot_secs(times.last().departing_time@) {
            Some(v) => rest.push(v as u64),
            None => rest,
        }
    }
}

/// The ferry status from a schedule's first terminal pair.
pub fn ferry_status_from_schedule(combos: &Vec<TerminalCombo>, route_description: &str) -> (r: Result<FerryStatus, SourceError>)
    ensures
        r is Err <==> combos@.len() == 0,
        r matches Err(e) ==> e is Parse,
        r matches Ok(f) ==> {
            let c = combos@[0];
            &&& f.vessel_name@ == if c.times@.len() > 0 { c.times@[0].vessel_name@ } else { "Unknown"@ }
            &&& f.estimated_departures@ == departures_of(c.times@)
            &&& f.route@ == if c.departing_terminal_name@.len() == 0 {
                route_description@
            } else {
                c.departing_terminal_name@ + " → "@ + c.arriving_terminal_name@
            }
        },
{
    if combos.len() == 0 {
        return Err(SourceError::Parse("no terminal combos in schedule response".to_string()));
    }
    let combo = &combos[0];
    let vessel_name = if combo.times.len() > 0 {
        string_from_chars(chars_of(combo.times[0].vessel_name.as_str()).as_slice())
    } else {
        "Unknown".to_string()
    };
    let mut departures: Vec<u64> = Vec::new();
    let mut i: usize = 0;
    while i < combo.times.len()
        invariant
            i <= combo.times@.len(),
            departures@ == departures_of(combo.times@.take(i as int)),
        decreases combo.times.len() - i,
    {
        assert(combo.times@.take(i + 1).drop_last() =~= combo.times@.take(i as int));
        match crate::datetime::parse_wsdot_date(combo.times[i].departing_time.as_str()) {
            Some(v) => departures.push(v),
            None => {},
        }
        i = i + 1;
    }
    assert(combo.times@.take(combo.times@.len() as int) =~= combo.times@);
    let dep = chars_of(combo.departing_terminal_name.as_str());
    let route = if dep.len() == 0 {
        string_from_chars(chars_of(route_description).as_slice())
    } else {
        let mut v = dep;
        append_str(&mut v, " → ");
        append_str(&mut v, combo.arriving_terminal_name.as_str());
        string_from_chars(v.as_slice())
    };
    Ok(FerryStatus { route, vessel_name, estimated_departures: departures })
}

// ── River gauge ──────────────────────────────────────────────────────────────

/// USGS parameter code for gauge height (feet).
pub open spec fn gauge_height_code() -> Seq<char> {
    "00065"@
}

/// USGS parameter code for streamflow (cubic feet per second).
pub open spec fn streamflow_code() -> Seq<char> {
    "00060"@
}

/// One reading of an NWIS time series.
#[derive(Debug, Clone)]
pub struct NwisReading {
    /// The value as the API writes it.
    pub value: String,
    pub date_time: String,
}

/// One time series of the NWIS instantaneous values response.
#[derive(Debug, Clone)]
pub struct NwisSeries {
    pub site_name: String,
    pub site_codes: Vec<String>,
    pub variable_codes: Vec<String>,
    /// The series' value sets, each a list of readings, oldest first.
    pub values: Vec<Vec<NwisReading>>,
}

/// What the river gauge source makes of a response: the site, the latest
/// gauge-height and streamflow values as written by the API, and the time of
/// the newest of those readings.
#[derive(Debug, Clone)]
pub struct GaugeReadings {
    pub site_id: String,
    pub site_name: String,
    pub level: Option<String>,
    pub flow: Option<String>,
    pub timestamp: u64,
}

/// Model of [`GaugeReadings`].
pub struct GaugeModel {
    pub site_id: Seq<char>,
    pub site_name: Seq<char>,
    pub level: Option<Seq<char>>,
    pub flow: Option<Seq<char>>,
    pub timestamp: int,
}

/// The latest reading of a series: the last of its first value set.
pub open spec fn latest_reading(s: NwisSeries) -> Option<NwisReading> {
    if s.values@.len() > 0 && s.values@[0]@.len() > 0 {
        Some(s.values@[0]@[s.values@[0]@.len() - 1])
    } else {
        None
    }
}

/// One series folded into the gauge state.
pub open spec fn gauge_step(g: GaugeModel, s: NwisSeries) -> GaugeModel {
    let g1 = if g.site_id.len() == 0 {
        GaugeModel {
            site_id: if s.site_codes@.len() > 0 { s.site_codes@[0]@ } else { Seq::empty() },
            site_name: title_case_of(s.site_name@),
            ..g
        }
    } else {
        g
    };
    let code = if s.variable_codes@.len() > 0 { s.variable_codes@[0]@ } else { Seq::empty() };
    match latest_reading(s) {
        None => g1,
        Some(r) => {
            let t = nwis_epoch(r.date_time@);
            let ts = if t > g1.timestamp { t } else { g1.timestamp };
            if code == gauge_height_code() {
                GaugeModel { level: Some(r.value@), timestamp: ts, ..g1 }
            } else if code == streamflow_code() {
                GaugeModel { flow: Some(r.value@), timestamp: ts, ..g1 }
            } else {
                g1
            }
        },
    }
}

/// The gauge state after the series, in order.
pub open spec fn gauge_scan(series: Seq<NwisSeries>) -> GaugeModel
    decreases series.len(),
{
    if series.len() == 0 {
        GaugeModel { site_id: Seq::empty(), site_name: Seq::empty(), level: None, flow: None, timestamp: 0 }
    } else {
        gauge_step(gauge_scan(series.drop_last()), series.last())
    }
}

/// Whether a reading's date-time, if any, can be read.
pub open spec fn reading_ok(r: Option<NwisReading>) -> bool {
    match r {
        Some(x) => nwis_ok(x.date_time@),
        None => true,
    }
}

/// Whether every latest reading's date-time can be read.
pub open spec fn gauge_series_ok(series: Seq<NwisSeries>) -> bool {
    forall|i: int| 0 <= i < series.len() ==> reading_ok(#[trigger] latest_reading(series[i]))
}

impl GaugeReadings {
    pub open spec fn model(&self) -> GaugeModel {
        GaugeModel {
            site_id: self.site_id@,
            site_name: self.site_name@,
            level: match self.level { Some(v) => Some(v@), None => None },
            flow: match self.flow { Some(v) => Some(v@), None => None },
            timestamp: self.timestamp as int,
        }
    }
}

fn copy_string(s: &String) -> (r: String)
    ensures
        r@ == s@,
{
    string_from_chars(chars_of(s.as_str()).as_slice())
}

/// The gauge readings of an NWIS response's time series.
pub fn gauge_from_series(series: &Vec<NwisSeries>) -> (r: Result<GaugeReadings, SourceError>)
    requires
        gauge_series_ok(series@),
    ensures
        r is Err <==> series@.len() == 0,
        r matches Err(e) ==> e is Parse,
        r matches Err(SourceError::Parse(m)) ==> m@ == "no time series in USGS response"@,
        r matches Ok(g) ==> g.model() == gauge_scan(series@),
{
    if series.len() == 0 {
        return Err(SourceError::Parse("no time series in USGS response".to_string()));
    }
    let mut g = GaugeReadings { site_id: String::new(), site_name: String::new(), level: None, flow: None, timestamp: 0 };
    let mut i: usize = 0;
    assert(series@.take(0) =~= Seq::<NwisSeries>::empty());
    while i < series.len()
        invariant
            i <= series@.len(),
            gauge_series_ok(series@),
            g.model() == gauge_scan(series@.take(i as int)),
        decreases series.len() - i,
    {
        assert(series@.take(i + 1).drop_last() =~= series@.take(i as int));
        let s = &series[i];
        assert(reading_ok(latest_reading(series@[i as int])));
        if g.site_id.as_str().unicode_len() == 0 {
            g.site_id = if s.site_codes.len() > 0 { copy_string(&s.site_codes[0]) } else { String::new() };
            g.site_name = title_case(s.site_name.as_str());
        }
        let is_level = s.variable_codes.len() > 0 && str_eq(s.variable_codes[0].as_str(), "00065");
        let is_flow = s.variable_codes.len() > 0 && str_eq(s.variable_codes[0].as_str(), "00060");
        proof {
            reveal_strlit("00065");
            reveal_strlit("00060");
        }
        if s.values.len() > 0 && s.values[0].len() > 0 {
            let r = &s.values[0][s.values[0].len() - 1];
            let t = parse_nwis_datetime(r.date_time.as_str());
            let ts = if t > g.timestamp { t } else { g.timestamp };
            if is_level {
                g.level = Some(copy_string(&r.value));
                g.timestamp = ts;
            } else if is_flow {
                g.flow = Some(copy_string(&r.value));
                g.timestamp = ts;
            }
        }
        i = i + 1;
    }
    assert(series@.take(series@.len() as int) =~= series@);
    Ok(g)
}

} // verus!
