//! Logic behind the local web interface: escaping text for HTML and URLs,
//! enabling and disabling sources, and reading the USGS site list used by the
//! gauge search.
use vstd::prelude::*;
use crate::strings::{split_on, trim, split_chars, trim_chars};
use crate::text::{chars_of, chars_eq, str_eq, string_from_chars, append_chars};
use vstd::string::StringSliceAdditionalSpecFns;
use crate::config::Destination;
use crate::domain::RelevantSignals;

verus! {

broadcast use vstd::seq_lib::group_seq_properties;

// ── Escaping ─────────────────────────────────────────────────────────────────

/// The HTML form of one character: `&`, `<`, `>` and `"` become entities.
pub open spec fn escape_char(c: char) -> Seq<char> {
    if c == '&' {
        "&amp;"@
    } else if c == '<' {
        "&lt;"@
    } else if c == '>' {
        "&gt;"@
    } else if c == '"' {
        "&quot;"@
    } else {
        seq![c]
    }
}

/// `s` with every character in its HTML form.
pub open spec fn html_escaped(s: Seq<char>) -> Seq<char>
    decreases s.len(),
{
    if s.len() == 0 {
        Seq::empty()
    } else {
        html_escaped(s.drop_last()) + escape_char(s.last())
    }
}

/// Escape text for inclusion in HTML.
pub fn html_escape(s: &str) -> (r: String)
    ensures
        r@ == html_escaped(s@),
{
    let cs = chars_of(s);
    let mut out: Vec<char> = Vec::new();
    let mut i: usize = 0;
    while i < cs.len()
        invariant
            i <= cs@.len(),
            out@ == html_escaped(cs@.take(i as int)),
        decreases cs.len() - i,
    {
        let c = cs[i];
        assert(cs@.take(i + 1).drop_last() =~= cs@.take(i as int));
        if c == '&' {
            crate::text::append_str(&mut out, "&amp;");
        } else if c == '<' {
            crate::text::append_str(&mut out, "&lt;");
        } else if c == '>' {
            crate::text::append_str(&mut out, "&gt;");
        } else if c == '"' {
            crate::text::append_str(&mut out, "&quot;");
        } else {
            out.push(c);
        }
        i = i + 1;
    }
    assert(cs@.take(cs@.len() as int) =~= cs@);
    string_from_chars(out.as_slice())
}

/// Escaped text cannot open or close a tag or an attribute value: it holds
/// no `<`, `>` or `"`. It is never shorter than the input.
pub proof fn law_escaped_has_no_markup(s: Seq<char>)
    ensures
        forall|i: int| 0 <= i < html_escaped(s).len() ==> {
            let c = #[trigger] html_escaped(s)[i];
            c != '<' && c != '>' && c != '"'
        },
        html_escaped(s).len() >= s.len(),
    decreases s.len(),
{
    if s.len() > 0 {
        law_escaped_has_no_markup(s.drop_last());
        let head = html_escaped(s.drop_last());
        let tail = escape_char(s.last());
        assert forall|i: int| 0 <= i < html_escaped(s).len() implies {
            let c = #[trigger] html_escaped(s)[i];
            c != '<' && c != '>' && c != '"'
        } by {
            if i >= head.len() {
                assert(html_escaped(s)[i] == tail[i - head.len()]);
                reveal_strlit("&amp;");
                reveal_strlit("&lt;");
                reveal_strlit("&gt;");
                reveal_strlit("&quot;");
            } else {
                assert(html_escaped(s)[i] == head[i]);
            }
        }
        reveal_strlit("&amp;");
        reveal_strlit("&lt;");
        reveal_strlit("&gt;");
        reveal_strlit("&quot;");
    }
}

/// Bytes kept as they are in a URL component.
pub open spec fn unreserved(b: u8) -> bool {
    ||| (65 <= b && b <= 90)
    ||| (97 <= b && b <= 122)
    ||| (48 <= b && b <= 57)
    ||| b == 45
    ||| b == 95
    ||| b == 46
    ||| b == 126
}

/// Upper-case hexadecimal digit.
pub open spec fn hex_digit(n: int) -> char {
    if n < 10 { ((n + 48) as u8) as char } else { ((n + 55) as u8) as char }
}

/// One byte in a URL component: itself when unreserved, else "%XX".
pub open spec fn url_byte(b: u8) -> Seq<char> {
    if unreserved(b) {
        seq![b as char]
    } else {
        seq!['%', hex_digit(b as int / 16), hex_digit(b as int % 16)]
    }
}

/// Percent-encoding of a byte string.
pub open spec fn url_encoded(bs: Seq<u8>) -> Seq<char>
    decreases bs.len(),
{
    if bs.len() == 0 {
        Seq::empty()
    } else {
        url_encoded(bs.drop_last()) + url_byte(bs.last())
    }
}

fn hex_char(n: u8) -> (c: char)
    requires
        n < 16,
    ensures
        c == hex_digit(n as int),
{
    if n < 10 { (n + 48) as char } else { (n + 55) as char }
}

/// Percent-encode the UTF-8 bytes of `s` for use in an element id or URL.
pub fn urlencoding(s: &str) -> (r: String)
    ensures
        r@ == url_encoded(s.spec_bytes()),
{
    let bytes = s.as_bytes();
    let mut out: Vec<char> = Vec::new();
    let mut i: usize = 0;
    while i < bytes.len()
        invariant
            i <= bytes@.len(),
            bytes@ == s.spec_bytes(),
            out@ == url_encoded(bytes@.take(i as int)),
        decreases bytes.len() - i,
    {
        let b = bytes[i];
        assert(bytes@.take(i + 1).drop_last() =~= bytes@.take(i as int));
        if (65 <= b && b <= 90) || (97 <= b && b <= 122) || (48 <= b && b <= 57) || b == 45 || b == 95 || b == 46 || b == 126 {
            out.push(b as char);
        } else {
            out.push('%');
            out.push(hex_char(b / 16));
            out.push(hex_char(b % 16));
        }
        assert(out@ =~= url_encoded(bytes@.take(i + 1)));
        i = i + 1;
    }
    assert(bytes@.take(bytes@.len() as int) =~= bytes@);
    string_from_chars(out.as_slice())
}

// ── Source toggles ───────────────────────────────────────────────────────────

/// Runtime status of one data source, as listed by the web interface.
#[derive(Debug, Clone)]
pub struct SourceStatus {
    pub name: String,
    pub enabled: bool,
    /// Unix seconds of the last successful fetch.
    pub last_fetch: Option<u64>,
    pub last_error: Option<String>,
    /// Unix seconds of the next scheduled fetch.
    pub next_fetch: Option<u64>,
}

/// Index of the first source named `name` at or after `i`.
pub open spec fn source_index_from(statuses: Seq<SourceStatus>, name: Seq<char>, i: int) -> Option<int>
    decreases statuses.len() - i,
{
    if i < 0 || i >= statuses.len() {
        None
    } else if statuses[i].name@ == name {
        Some(i)
    } else {
        source_index_from(statuses, name, i + 1)
    }
}

/// Enable or disable the first source named `name`. Returns whether there is
/// one; the list is unchanged when there is not.
pub fn set_source_enabled(statuses: &mut Vec<SourceStatus>, name: &str, enabled: bool) -> (found: bool)
    ensures
        found == source_index_from(old(statuses)@, name@, 0) is Some,
        match source_index_from(old(statuses)@, name@, 0) {
            Some(i) => final(statuses)@ == old(statuses)@.update(i, SourceStatus { enabled: enabled, ..old(statuses)@[i] }),
            None => final(statuses)@ == old(statuses)@,
        },
{
    let mut i: usize = 0;
    while i < statuses.len()
        invariant
            i <= statuses@.len(),
            statuses@ == old(statuses)@,
            source_index_from(old(statuses)@, name@, 0) == source_index_from(old(statuses)@, name@, i as int),
        decreases statuses.len() - i,
    {
        if str_eq(statuses[i].name.as_str(), name) {
            let mut st = statuses.remove(i);
            st.enabled = enabled;
            statuses.insert(i, st);
            assert(statuses@ =~= old(statuses)@.update(i as int, SourceStatus { enabled: enabled, ..old(statuses)@[i as int] }));
            return true;
        }
        i = i + 1;
    }
    false
}

// ── Destination list edits ───────────────────────────────────────────────────

/// Index of the first destination named `name` at or after `i`.
pub open spec fn name_index_from<C>(ds: Seq<Destination<C>>, name: Seq<char>, i: int) -> Option<int>
    decreases ds.len() - i,
{
    if i < 0 || i >= ds.len() {
        None
    } else if ds[i].name@ == name {
        Some(i)
    } else {
        name_index_from(ds, name, i + 1)
    }
}

/// Whether a destination name is empty once surrounding whitespace is trimmed.
pub open spec fn is_blank(name: Seq<char>) -> bool {
    trim(name).len() == 0
}

/// Create or update a destination. A blank name is refused (`false`, list
/// unchanged). Otherwise the first destination with that name gets the new
/// signals and criteria, or a new destination is appended when none has it.
pub fn upsert_destination<C>(dests: &mut Vec<Destination<C>>, name: String, signals: RelevantSignals, criteria: C) -> (accepted: bool)
    ensures
        accepted == !is_blank(name@),
        !accepted ==> final(dests)@ == old(dests)@,
        accepted ==> match name_index_from(old(dests)@, name@, 0) {
            Some(i) => final(dests)@ == old(dests)@.update(i, Destination { name: old(dests)@[i].name, signals: signals, criteria: criteria }),
            None => final(dests)@ == old(dests)@.push(Destination { name: name, signals: signals, criteria: criteria }),
        },
{
    let trimmed = trim_chars(&chars_of(name.as_str()));
    if trimmed.len() == 0 {
        return false;
    }
    let mut i: usize = 0;
    while i < dests.len()
        invariant
            i <= dests@.len(),
            dests@ == old(dests)@,
            !is_blank(name@),
            name_index_from(old(dests)@, name@, 0) == name_index_from(old(dests)@, name@, i as int),
        decreases dests.len() - i,
    {
        if str_eq(dests[i].name.as_str(), name.as_str()) {
            let mut d = dests.remove(i);
            d.signals = signals;
            d.criteria = criteria;
            dests.insert(i, d);
            assert(dests@ =~= old(dests)@.update(i as int, Destination { name: old(dests)@[i as int].name, signals: signals, criteria: criteria }));
            return true;
        }
        i = i + 1;
    }
    dests.push(Destination { name, signals, criteria });
    true
}

/// The destinations not named `name`, in order.
pub open spec fn without_named<C>(ds: Seq<Destination<C>>, name: Seq<char>) -> Seq<Destination<C>>
    decreases ds.len(),
{
    if ds.len() == 0 {
        Seq::empty()
    } else {
        let rest = without_named(ds.drop_last(), name);
        if ds.last().name@ == name { rest } else { rest.push(ds.last()) }
    }
}

/// Removing by name shortens the list exactly when some destination has the name.
proof fn lemma_without_named_len<C>(ds: Seq<Destination<C>>, name: Seq<char>)
    ensures
        without_named(ds, name).len() <= ds.len(),
        (without_named(ds, name).len() < ds.len()) == (exists|i: int| 0 <= i < ds.len() && ds[i].name@ == name),
    decreases ds.len(),
{
    if ds.len() > 0 {
        let init = ds.drop_last();
        lemma_without_named_len(init, name);
        if exists|i: int| 0 <= i < init.len() && init[i].name@ == name {
            let i = choose|i: int| 0 <= i < init.len() && init[i].name@ == name;
            assert(ds[i] == init[i]);
        }
        if exists|i: int| 0 <= i < ds.len() && ds[i].name@ == name {
            let i = choose|i: int| 0 <= i < ds.len() && ds[i].name@ == name;
            if i < ds.len() - 1 {
                assert(init[i] == ds[i]);
            }
        }
    }
}

/// Deleting a name leaves no destination with that name, and keeps every
/// other destination.
pub proof fn law_delete_removes_name<C>(ds: Seq<Destination<C>>, name: Seq<char>)
    ensures
        forall|i: int| 0 <= i < without_named(ds, name).len() ==> #[trigger] without_named(ds, name)[i].name@ != name,
        forall|j: int| 0 <= j < ds.len() && ds[j].name@ != name ==> without_named(ds, name).contains(#[trigger] ds[j]),
    decreases ds.len(),
{
    if ds.len() > 0 {
        let init = ds.drop_last();
        law_delete_removes_name(init, name);
        assert forall|j: int| 0 <= j < ds.len() && ds[j].name@ != name implies without_named(ds, name).contains(#[trigger] ds[j]) by {
            if j < ds.len() - 1 {
                assert(init[j] == ds[j]);
                let k = choose|k: int| 0 <= k < without_named(init, name).len() && without_named(init, name)[k] == init[j];
                if ds.last().name@ != name {
                    assert(without_named(ds, name)[k] == ds[j]);
                }
            } else {
                assert(without_named(ds, name).last() == ds[j]);
            }
        }
    }
}

/// Remove every destination named `name`. Returns whether one was removed;
/// the list is unchanged when none has the name.
pub fn delete_destination<C>(dests: &mut Vec<Destination<C>>, name: &str) -> (found: bool)
    ensures
        final(dests)@ == without_named(old(dests)@, name@),
        found == (exists|i: int| 0 <= i < old(dests)@.len() && old(dests)@[i].name@ == name@),
{
    let ghost d0 = dests@;
    let n0 = dests.len();
    let ghost mut k: int = 0;
    let mut i: usize = 0;
    while i < dests.len()
        invariant
            0 <= k <= d0.len(),
            n0 == d0.len(),
            i <= dests@.len(),
            dests@.take(i as int) == without_named(d0.take(k), name@),
            dests@.skip(i as int) == d0.skip(k),
        decreases dests.len() - i,
    {
        proof {
            assert(dests@.skip(i as int).len() > 0);
            assert(d0.skip(k).len() > 0);
            assert(k < d0.len());
            assert(dests@[i as int] == d0[k]) by {
                assert(dests@.skip(i as int)[0] == d0.skip(k)[0]);
            }
            assert(d0.take(k + 1).drop_last() =~= d0.take(k));
            assert(d0.take(k + 1).last() == d0[k]);
        }
        if str_eq(dests[i].name.as_str(), name) {
            let ghost before = dests@;
            dests.remove(i);
            proof {
                assert(dests@.take(i as int) =~= before.take(i as int));
                assert(dests@.skip(i as int) =~= before.skip(i as int).skip(1));
                assert(d0.skip(k).skip(1) =~= d0.skip(k + 1));
                k = k + 1;
            }
        } else {
            let ghost before = dests@;
            proof {
                assert(dests@.take(i + 1) =~= before.take(i as int).push(before[i as int]));
                assert(dests@.skip(i + 1) =~= before.skip(i as int).skip(1));
                assert(d0.skip(k).skip(1) =~= d0.skip(k + 1));
                k = k + 1;
            }
            i = i + 1;
        }
    }
    proof {
        assert(dests@.take(i as int) =~= dests@);
        assert(d0.skip(k).len() == 0);
        assert(d0.take(k) =~= d0);
        lemma_without_named_len(d0, name@);
    }
    dests.len() < n0
}

// ── USGS site list (RDB) ─────────────────────────────────────────────────────

/// A gauge site from the USGS site list: its number and name, and its
/// latitude and longitude as written in the list.
#[derive(Debug, Clone)]
pub struct RdbSite {
    pub site_id: String,
    pub site_name: String,
    pub lat: String,
    pub lon: String,
}

/// Model of an [`RdbSite`].
pub struct RdbSiteModel {
    pub site_id: Seq<char>,
    pub site_name: Seq<char>,
    pub lat: Seq<char>,
    pub lon: Seq<char>,
}

impl RdbSite {
    pub open spec fn model(&self) -> RdbSiteModel {
        RdbSiteModel { site_id: self.site_id@, site_name: self.site_name@, lat: self.lat@, lon: self.lon@ }
    }
}

/// Whether a trimmed line carries data: not empty and not a '#' comment.
pub open spec fn is_content(line: Seq<char>) -> bool {
    line.len() > 0 && line[0] != '#'
}

/// The trimmed content lines among `lines`, in order.
pub open spec fn content_lines(lines: Seq<Seq<char>>) -> Seq<Seq<char>>
    decreases lines.len(),
{
    if lines.len() == 0 {
        Seq::empty()
    } else {
        let rest = content_lines(lines.drop_last());
        let t = trim(lines.last());
        if is_content(t) { rest.push(t) } else { rest }
    }
}

/// Index of the first header equal to `name` at or after `i`.
pub open spec fn header_index_from(headers: Seq<Seq<char>>, name: Seq<char>, i: int) -> Option<int>
    decreases headers.len() - i,
{
    if i < 0 || i >= headers.len() {
        None
    } else if headers[i] == name {
        Some(i)
    } else {
        header_index_from(headers, name, i + 1)
    }
}

/// The field of a row under the column named `name`, if both exist.
pub open spec fn column(headers: Seq<Seq<char>>, fields: Seq<Seq<char>>, name: Seq<char>) -> Option<Seq<char>> {
    match header_index_from(headers, name, 0) {
        Some(i) => if i < fields.len() { Some(fields[i]) } else { None },
        None => None,
    }
}

/// The site a data row describes, when it names a site number and name and
/// has latitude and longitude fields.
pub open spec fn row_site(headers: Seq<Seq<char>>, line: Seq<char>) -> Option<RdbSiteModel> {
    let fields = split_on(line, '\t');
    match (column(headers, fields, "site_no"@), column(headers, fields, "station_nm"@),
        column(headers, fields, "dec_lat_va"@), column(headers, fields, "dec_long_va"@)) {
        (Some(id), Some(nm), Some(lat), Some(lon)) => if id.len() > 0 && nm.len() > 0 {
            Some(RdbSiteModel { site_id: id, site_name: nm, lat, lon })
        } else {
            None
        },
        _ => None,
    }
}

/// The sites of the data rows, in order.
pub open spec fn rows_sites(headers: Seq<Seq<char>>, rows: Seq<Seq<char>>) -> Seq<RdbSiteModel>
    decreases rows.len(),
{
    if rows.len() == 0 {
        Seq::empty()
    } else {
        let rest = rows_sites(headers, rows.drop_last());
        match row_site(headers, rows.last()) {
            Some(s) => rest.push(s),
            None => rest,
        }
    }
}

/// The sites of a USGS RDB site list: after comments and blank lines, a
/// header row, a column-type row, then one site per row.
pub open spec fn rdb_sites(rdb: Seq<char>) -> Seq<RdbSiteModel> {
    let cl = content_lines(split_on(rdb, '\n'));
    if cl.len() < 2 {
        Seq::empty()
    } else {
        rows_sites(split_on(cl[0], '\t'), cl.skip(2))
    }
}

#[verifier::spinoff_prover]
fn content_lines_exec(rdb: &str) -> (r: Vec<Vec<char>>)
    ensures
        r.deep_view() =~~= content_lines(split_on(rdb@, '\n')),
{
    let cs = chars_of(rdb);
    let lines = split_chars(&cs, '\n');
    let ghost lv = lines.deep_view();
    let mut out: Vec<Vec<char>> = Vec::new();
    let mut i: usize = 0;
    while i < lines.len()
        invariant
            i <= lines@.len(),
            lv =~~= split_on(rdb@, '\n'),
            lv == lines.deep_view(),
            out.deep_view() =~~= content_lines(lv.take(i as int)),
        decreases lines.len() - i,
    {
        assert(lv.take(i + 1).drop_last() =~= lv.take(i as int));
        assert(lines@[i as int]@ =~= lv[i as int]);
        let t = trim_chars(&lines[i]);
        if t.len() > 0 && t[0] != '#' {
            let ghost o0 = out.deep_view();
            let ghost tv = t@;
            out.push(t);
            assert(out.deep_view() =~~= o0.push(tv));
        }
        i = i + 1;
    }
    assert(lv.take(lv.len() as int) =~= lv);
    out
}

/// Index of the first header equal to `name`.
fn header_index(headers: &Vec<Vec<char>>, name: &str) -> (r: Option<usize>)
    ensures
        r matches Some(i) ==> header_index_from(headers.deep_view(), name@, 0) == Some(i as int) && i < headers@.len(),
        r is None ==> header_index_from(headers.deep_view(), name@, 0) is None,
{
    let n = chars_of(name);
    let mut i: usize = 0;
    while i < headers.len()
        invariant
            i <= headers@.len(),
            n@ == name@,
            header_index_from(headers.deep_view(), name@, 0) == header_index_from(headers.deep_view(), name@, i as int),
        decreases headers.len() - i,
    {
        assert(headers@[i as int]@ =~= headers.deep_view()[i as int]);
        if chars_eq(headers[i].as_slice(), n.as_slice()) {
            return Some(i);
        }
        i = i + 1;
    }
    None
}

/// The field under the column named `name`.
fn column_exec(headers: &Vec<Vec<char>>, fields: &Vec<Vec<char>>, name: &str) -> (r: Option<Vec<char>>)
    ensures
        r matches Some(v) ==> column(headers.deep_view(), fields.deep_view(), name@) == Some(v@),
        r is None ==> column(headers.deep_view(), fields.deep_view(), name@) is None,
{
    match header_index(headers, name) {
        Some(i) => if i < fields.len() {
            let v = fields[i].clone();
            assert(v@ =~= fields.deep_view()[i as int]);
            Some(v)
        } else {
            None
        },
        None => None,
    }
}

/// Parse a USGS RDB site list into the sites it describes. Latitude and
/// longitude are returned as written; rows without a site number, a name, or
/// either coordinate field are skipped.
pub fn parse_usgs_sites_rdb(rdb: &str) -> (sites: Vec<RdbSite>)
    ensures
        sites@.map_values(|s: RdbSite| s.model()) =~~= rdb_sites(rdb@),
{
    let cl = content_lines_exec(rdb);
    let ghost cv = cl.deep_view();
    let mut sites: Vec<RdbSite> = Vec::new();
    if cl.len() < 2 {
        return sites;
    }
    let headers = split_chars(&cl[0], '\t');
    assert(cl@[0]@ =~= cv[0]);
    let ghost hv = headers.deep_view();
    let ghost rows = cv.skip(2);
    let mut i: usize = 2;
    assert(rows.take(0) =~= Seq::<Seq<char>>::empty());
    while i < cl.len()
        invariant
            2 <= i <= cl@.len(),
            cv == cl.deep_view(),
            hv == headers.deep_view(),
            hv =~~= split_on(cv[0], '\t'),
            rows == cv.skip(2),
            sites@.map_values(|s: RdbSite| s.model()) =~~= rows_sites(hv, rows.take(i - 2)),
        decreases cl.len() - i,
    {
        assert(rows.take(i - 1).drop_last() =~= rows.take(i - 2));
        assert(cl@[i as int]@ =~= rows[i - 2]);
        let fields = split_chars(&cl[i], '\t');
        let id = column_exec(&headers, &fields, "site_no");
        let nm = column_exec(&headers, &fields, "station_nm");
        let lat = column_exec(&headers, &fields, "dec_lat_va");
        let lon = column_exec(&headers, &fields, "dec_long_va");
        let ghost before = sites@.map_values(|s: RdbSite| s.model());
        match (id, nm, lat, lon) {
            (Some(id), Some(nm), Some(lat), Some(lon)) => {
                if id.len() > 0 && nm.len() > 0 {
                    let site = RdbSite {
                        site_id: string_from_chars(id.as_slice()),
                        site_name: string_from_chars(nm.as_slice()),
                        lat: string_from_chars(lat.as_slice()),
                        lon: string_from_chars(lon.as_slice()),
                    };
                    let ghost m = site.model();
                    sites.push(site);
                    assert(sites@.map_values(|s: RdbSite| s.model()) =~~= before.push(m));
                }
            },
            _ => {},
        }
        i = i + 1;
    }
    assert(rows.take(cl@.len() - 2) =~= rows);
    sites
}

} // verus!
