//! Reading the service's settings out of the values of its environment variables.

use crate::catalog::{
    catalog_rank, all_catalogs, catalog_name, spec_parse_catalog, CatalogId, UnknownCatalogId, ALL_CATALOGS,
};
use crate::text::{chars_of, find_char, first_index, parse_uint, spec_parse_uint, string_of_range};
use crate::time::{span_wf, Span};
use crate::version::lemma_split_range;
use vstd::prelude::*;

verus! {

/// Why the settings could not be read.
#[derive(Debug, Clone, PartialEq, Eq)]
pub enum ConfigError {
    /// A duration variable does not hold a number of seconds.
    NotSeconds { variable: String, raw: String },
    /// The catalog list names a catalog that does not exist.
    UnknownCatalog { name: String },
    /// The catalog list selects no catalog.
    NoCatalogs,
    /// The listen address is not a socket address.
    BadAddress { raw: String },
}

/// The characters Unicode calls white space, which `str::trim` removes.
pub open spec fn is_whitespace(c: char) -> bool {
    ||| '\u{9}' <= c <= '\u{d}'
    ||| c == ' '
    ||| c == '\u{85}'
    ||| c == '\u{a0}'
    ||| c == '\u{1680}'
    ||| '\u{2000}' <= c <= '\u{200a}'
    ||| c == '\u{2028}'
    ||| c == '\u{2029}'
    ||| c == '\u{202f}'
    ||| c == '\u{205f}'
    ||| c == '\u{3000}'
}

fn whitespace(c: char) -> (b: bool)
    ensures
        b == is_whitespace(c),
{
    ('\u{9}' <= c && c <= '\u{d}') || c == ' ' || c == '\u{85}' || c == '\u{a0}' || c == '\u{1680}'
        || ('\u{2000}' <= c && c <= '\u{200a}') || c == '\u{2028}' || c == '\u{2029}' || c
        == '\u{202f}' || c == '\u{205f}' || c == '\u{3000}'
}

/// `s` without the white space at its start.
pub open spec fn trim_start(s: Seq<char>) -> Seq<char>
    decreases s.len(),
{
    if s.len() > 0 && is_whitespace(s[0]) {
        trim_start(s.drop_first())
    } else {
        s
    }
}

/// `s` without the white space at its end.
pub open spec fn trim_end(s: Seq<char>) -> Seq<char>
    decreases s.len(),
{
    if s.len() > 0 && is_whitespace(s.last()) {
        trim_end(s.drop_last())
    } else {
        s
    }
}

/// `str::trim`: `s` without white space at either end.
pub open spec fn trim(s: Seq<char>) -> Seq<char> {
    trim_end(trim_start(s))
}

/// `str::split` at every `c`: the text between consecutive `c`s, and before the first and
/// after the last.
pub open spec fn split_all(s: Seq<char>, c: char) -> Seq<Seq<char>>
    decreases s.len(),
{
    match first_index(s, c) {
        Some(i) => if 0 <= i < s.len() {
            seq![s.take(i)] + split_all(s.skip(i + 1), c)
        } else {
            seq![s]
        },
        None => seq![s],
    }
}

/// The catalogs a list of names selects, read in order: blank names are skipped, each
/// catalog is kept the first time it is named, and the first name that is no catalog's
/// is the error.
pub open spec fn select_catalogs(names: Seq<Seq<char>>) -> Result<Seq<CatalogId>, Seq<char>>
    decreases names.len(),
{
    if names.len() == 0 {
        Ok(Seq::empty())
    } else {
        match select_catalogs(names.drop_last()) {
            Err(name) => Err(name),
            Ok(ids) => {
                let name = trim(names.last());
                if name.len() == 0 {
                    Ok(ids)
                } else {
                    match spec_parse_catalog(name) {
                        None => Err(name),
                        Some(id) => Ok(
                            if ids.contains(id) {
                                ids
                            } else {
                                ids.push(id)
                            },
                        ),
                    }
                }
            },
        }
    }
}

proof fn lemma_trim_start_range(s: Seq<char>, lo: int, k: int, hi: int)
    requires
        0 <= lo <= k <= hi <= s.len(),
        forall|j: int| lo <= j < k ==> is_whitespace(s[j]),
    ensures
        trim_start(s.subrange(lo, hi)) == trim_start(s.subrange(k, hi)),
    decreases k - lo,
{
    if lo < k {
        assert(s.subrange(lo, hi).drop_first() =~= s.subrange(lo + 1, hi));
        lemma_trim_start_range(s, lo + 1, k, hi);
    }
}

proof fn lemma_trim_end_range(s: Seq<char>, lo: int, k: int, hi: int)
    requires
        0 <= lo <= k <= hi <= s.len(),
        forall|j: int| k <= j < hi ==> is_whitespace(s[j]),
    ensures
        trim_end(s.subrange(lo, hi)) == trim_end(s.subrange(lo, k)),
    decreases hi - k,
{
    if k < hi {
        assert(s.subrange(lo, hi).drop_last() =~= s.subrange(lo, hi - 1));
        lemma_trim_end_range(s, lo, k, hi - 1);
    }
}

/// The bounds of `s[lo..hi]` trimmed.
fn trim_range(s: &[char], lo: usize, hi: usize) -> (r: (usize, usize))
    requires
        lo <= hi <= s@.len(),
    ensures
        lo <= r.0 <= r.1 <= hi,
        s@.subrange(r.0 as int, r.1 as int) == trim(s@.subrange(lo as int, hi as int)),
{
    let mut a = lo;
    while a < hi && whitespace(s[a])
        invariant
            lo <= a <= hi <= s@.len(),
            forall|j: int| lo <= j < a ==> is_whitespace(s@[j]),
        decreases hi - a,
    {
        a = a + 1;
    }
    proof {
        lemma_trim_start_range(s@, lo as int, a as int, hi as int);
        if a < hi {
            assert(!is_whitespace(s@.subrange(a as int, hi as int)[0]));
        }
    }
    let mut b = hi;
    while b > a && whitespace(s[b - 1])
        invariant
            a <= b <= hi <= s@.len(),
            forall|j: int| b <= j < hi ==> is_whitespace(s@[j]),
        decreases b - a,
    {
        b = b - 1;
    }
    proof {
        lemma_trim_end_range(s@, a as int, b as int, hi as int);
        if b > a {
            assert(!is_whitespace(s@.subrange(a as int, b as int).last()));
        }
    }
    (a, b)
}

/// Once a name is no catalog's, later names change nothing.
proof fn lemma_select_error_sticks(a: Seq<Seq<char>>, b: Seq<Seq<char>>)
    requires
        select_catalogs(a) is Err,
    ensures
        select_catalogs(a + b) == select_catalogs(a),
    decreases b.len(),
{
    if b.len() == 0 {
        assert(a + b =~= a);
    } else {
        lemma_select_error_sticks(a, b.drop_last());
        assert((a + b).drop_last() =~= a + b.drop_last());
    }
}

/// Reads the catalog list of `WAREHOUSE_CATALOGS`: unset selects every catalog; otherwise
/// the comma-separated names, trimmed, as [`select_catalogs`] reads them, of which there
/// must be at least one.
pub fn catalogs_var(raw: Option<&str>) -> (res: Result<Vec<CatalogId>, ConfigError>)
    ensures
        match raw {
            None => res matches Ok(ids) && ids@ == all_catalogs(),
            Some(r) => match select_catalogs(split_all(r@, ',')) {
                Err(name) => res matches Err(ConfigError::UnknownCatalog { name: n }) && n@ == name,
                Ok(ids) => if ids.len() == 0 {
                    res matches Err(ConfigError::NoCatalogs)
                } else {
                    res matches Ok(v) && v@ == ids
                },
            },
        },
{
    let r = match raw {
        Some(r) => r,
        None => {
            let all = ALL_CATALOGS;
            let mut v: Vec<CatalogId> = Vec::new();
            let mut i: usize = 0;
            while i < 7
                invariant
                    i <= 7,
                    all@ == all_catalogs(),
                    v@ == all_catalogs().take(i as int),
                decreases 7 - i,
            {
                v.push(all[i]);
                i = i + 1;
                assert(v@ =~= all_catalogs().take(i as int));
            }
            assert(v@ =~= all_catalogs());
            return Ok(v);
        },
    };
    let chars = chars_of(r);
    let n = chars.len();
    let ghost parts = split_all(r@, ',');
    let mut ids: Vec<CatalogId> = Vec::new();
    let mut start: usize = 0;
    let ghost done: Seq<Seq<char>> = Seq::empty();
    assert(chars@.subrange(0, n as int) =~= r@);
    loop
        invariant_except_break
            parts == done + split_all(chars@.subrange(start as int, n as int), ','),
        invariant
            raw == Some(r),
            start <= n,
            n == chars@.len(),
            chars@ == r@,
            parts == split_all(r@, ','),
            select_catalogs(done) == Ok::<Seq<CatalogId>, Seq<char>>(ids@),
        ensures
            parts == done,
        decreases n - start,
    {
        let ghost rest = chars@.subrange(start as int, n as int);
        let end = match find_char(chars.as_slice(), start, n, ',') {
            Some(k) => k,
            None => n,
        };
        let ghost part = chars@.subrange(start as int, end as int);
        proof {
            if end < n {
                lemma_split_range(chars@, start as int, end as int, n as int, ',');
                assert(rest.take(end - start) =~= part);
                assert(rest.skip(end - start + 1) =~= chars@.subrange(end + 1, n as int));
                assert(split_all(rest, ',') == seq![part] + split_all(chars@.subrange(end + 1, n as int), ','));
            } else {
                assert(rest =~= part);
                assert(split_all(rest, ',') == seq![part]);
            }
        }
        let (a, b) = trim_range(chars.as_slice(), start, end);
        let ghost done1 = done.push(part);
        assert(done1.drop_last() =~= done);
        assert(done1.last() == part);
        if a < b {
            let name = string_of_range(chars.as_slice(), a, b);
            match CatalogId::parse(name.as_str()) {
                Ok(id) => {
                    let mut seen = false;
                    let mut j: usize = 0;
                    while j < ids.len()
                        invariant
                            j <= ids@.len(),
                            seen == exists|k: int| 0 <= k < j && ids@[k] == id,
                        decreases ids@.len() - j,
                    {
                        if ids[j] == id {
                            seen = true;
                        }
                        j = j + 1;
                    }
                    assert(seen == ids@.contains(id));
                    if !seen {
                        ids.push(id);
                    }
                    assert(select_catalogs(done1) == Ok::<Seq<CatalogId>, Seq<char>>(ids@));
                },
                Err(_) => {
                    proof {
                        assert(select_catalogs(done1) == Err::<Seq<CatalogId>, Seq<char>>(name@));
                        lemma_select_error_sticks(done1, split_all(chars@.subrange(end + 1, n as int), ','));
                        if end < n {
                            assert(parts == done1 + split_all(chars@.subrange(end + 1, n as int), ','));
                        } else {
                            assert(parts =~= done1);
                            lemma_select_error_sticks(done1, Seq::empty());
                            assert(done1 + Seq::<Seq<char>>::empty() =~= done1);
                        }
                    }
                    return Err(ConfigError::UnknownCatalog { name });
                },
            }
        } else {
            assert(select_catalogs(done1) == Ok::<Seq<CatalogId>, Seq<char>>(ids@));
        }
        proof {
            done = done1;
        }
        if end == n {
            assert(parts == done);
            break;
        }
        start = end + 1;
        assert(parts == done + split_all(chars@.subrange(start as int, n as int), ','));
    }
    if ids.len() == 0 {
        return Err(ConfigError::NoCatalogs);
    }
    Ok(ids)
}

/// How long a catalog may go unrefreshed by default: a week for Minecraft, a day for the
/// others.
pub open spec fn spec_default_max_age(id: CatalogId) -> u64 {
    match id {
        CatalogId::Minecraft => 604800u64,
        _ => 86400u64,
    }
}

/// How long a catalog may go unrefreshed by default.
pub fn default_max_age(id: CatalogId) -> (secs: u64)
    ensures
        secs == spec_default_max_age(id),
{
    match id {
        CatalogId::Minecraft => 7 * 24 * 60 * 60,
        _ => 24 * 60 * 60,
    }
}

/// A character of a catalog's name as it appears in an environment variable's name.
pub open spec fn env_char(c: char) -> char {
    if 'a' <= c <= 'z' {
        ((c as u32) - 32) as char
    } else if c == '-' {
        '_'
    } else {
        c
    }
}

/// The variable holding a catalog's maximum age: `WAREHOUSE_MAX_AGE_` and the catalog's
/// name in upper case with `-` as `_`.
pub open spec fn max_age_var_name(id: CatalogId) -> Seq<char> {
    "WAREHOUSE_MAX_AGE_"@ + catalog_name(id).map_values(|c: char| env_char(c))
}

/// The variable holding a catalog's maximum age.
pub fn max_age_var(id: CatalogId) -> (name: String)
    ensures
        name@ == max_age_var_name(id),
{
    let mut out: Vec<char> = chars_of("WAREHOUSE_MAX_AGE_");
    let base = chars_of(id.as_str());
    let ghost start = out@;
    let mut i: usize = 0;
    while i < base.len()
        invariant
            i <= base@.len(),
            base@ == catalog_name(id),
            out@ == start + base@.take(i as int).map_values(|c: char| env_char(c)),
        decreases base@.len() - i,
    {
        let c = base[i];
        let e = if 'a' <= c && c <= 'z' {
            char_upper(c)
        } else if c == '-' {
            '_'
        } else {
            c
        };
        out.push(e);
        i = i + 1;
        assert(out@ =~= start + base@.take(i as int).map_values(|c: char| env_char(c)));
    }
    assert(base@.take(i as int) =~= base@);
    crate::text::string_from_chars(out.as_slice())
}

fn char_upper(c: char) -> (u: char)
    requires
        'a' <= c <= 'z',
    ensures
        u == env_char(c),
{
    let code: u8 = (c as u32 - 32) as u8;
    assert(0x41 <= code <= 0x5a);
    code as char
}

/// Reads a duration variable holding a number of seconds; unset gives `default_secs`.
pub fn duration_var(variable: &str, raw: Option<&str>, default_secs: u64) -> (res: Result<Span, ConfigError>)
    ensures
        match raw {
            None => res == Ok::<Span, ConfigError>(Span { secs: default_secs, nanos: 0 }),
            Some(r) => match spec_parse_uint(r@, u64::MAX as nat) {
                Some(n) => res == Ok::<Span, ConfigError>(Span { secs: n as u64, nanos: 0 }),
                None => res matches Err(ConfigError::NotSeconds { variable: v, raw: got }) && v@
                    == variable@ && got@ == r@,
            },
        },
{
    let r = match raw {
        Some(r) => r,
        None => return Ok(Span::from_secs(default_secs)),
    };
    let chars = chars_of(r);
    assert(chars@.subrange(0, chars@.len() as int) =~= r@);
    match parse_uint(chars.as_slice(), 0, chars.len(), u64::MAX) {
        Some(n) => Ok(Span::from_secs(n)),
        None => Err(ConfigError::NotSeconds { variable: variable.to_owned(), raw: r.to_owned() }),
    }
}

/// The bearer token: unset and empty both mean none.
pub fn token_var(raw: Option<String>) -> (token: Option<String>)
    ensures
        match raw {
            Some(t) => if t@.len() > 0 {
                token == Some(t)
            } else {
                token is None
            },
            None => token is None,
        },
{
    match raw {
        Some(t) => if t.as_str().unicode_len() > 0 {
            Some(t)
        } else {
            None
        },
        None => None,
    }
}

/// The raw values of the variables the settings are read from; `None` where a variable
/// is unset.
#[derive(Debug, Clone)]
pub struct RawSettings {
    /// `WAREHOUSE_TOKEN`.
    pub token: Option<String>,
    /// `WAREHOUSE_DATA_DIR`.
    pub data_dir: Option<String>,
    /// `WAREHOUSE_USER_AGENT`.
    pub user_agent: Option<String>,
    /// `WAREHOUSE_CATALOGS`.
    pub catalogs: Option<String>,
    /// `WAREHOUSE_MAX_AGE_<CATALOG>` of every catalog, in the order of `ALL_CATALOGS`.
    pub max_age: Vec<Option<String>>,
    /// `WAREHOUSE_DOCKER_MIN_INTERVAL`.
    pub docker_min_interval: Option<String>,
    /// `WAREHOUSE_REFRESH_JITTER`.
    pub refresh_jitter: Option<String>,
    /// `WAREHOUSE_RETRY_BASE`.
    pub retry_base: Option<String>,
    /// `WAREHOUSE_RETRY_MAX`.
    pub retry_max: Option<String>,
}

/// The text of a variable that may be unset.
pub open spec fn opt_text(o: Option<String>) -> Option<Seq<char>> {
    match o {
        Some(s) => Some(s@),
        None => None,
    }
}

/// The catalogs a catalog list selects, or `None` when it is refused.
pub open spec fn catalog_list(raw: Option<Seq<char>>) -> Option<Seq<CatalogId>> {
    match raw {
        None => Some(all_catalogs()),
        Some(r) => match select_catalogs(split_all(r, ',')) {
            Ok(ids) => if ids.len() > 0 {
                Some(ids)
            } else {
                None
            },
            Err(_) => None,
        },
    }
}

/// The seconds a duration variable gives: its number, or `default` when unset; `None`
/// when it holds no number.
pub open spec fn seconds_var(raw: Option<Seq<char>>, default: u64) -> Option<u64> {
    match raw {
        None => Some(default),
        Some(r) => match spec_parse_uint(r, u64::MAX as nat) {
            Some(n) => Some(n as u64),
            None => None,
        },
    }
}

/// The raw maximum age of catalog `id`.
pub open spec fn max_age_raw(raw: RawSettings, id: CatalogId) -> Option<Seq<char>> {
    opt_text(raw.max_age@[catalog_rank(id) as int])
}

/// Whether the maximum age of the `k`th selected catalog holds no number.
pub open spec fn max_age_fails(raw: RawSettings, ids: Seq<CatalogId>, k: int) -> bool {
    seconds_var(max_age_raw(raw, ids[k]), spec_default_max_age(ids[k])) is None
}

/// The data directory used when none is set.
pub open spec fn default_data_dir() -> Seq<char> {
    "./data"@
}

/// The user agent sent when none is set.
pub open spec fn default_user_agent() -> Seq<char> {
    "warehouse/0.1.0 (+https://github.com/InvalidJoker/warehouse)"@
}

/// The listen address used when none is set.
pub open spec fn default_bind() -> Seq<char> {
    "0.0.0.0:8080"@
}

/// The listen address to parse: `WAREHOUSE_BIND`, or `0.0.0.0:8080` when unset.
pub fn bind_var(raw: Option<String>) -> (bind: String)
    ensures
        bind@ == match raw {
            Some(r) => r@,
            None => default_bind(),
        },
{
    match raw {
        Some(r) => r,
        None => {
            proof {
                reveal_strlit("0.0.0.0:8080");
            }
            "0.0.0.0:8080".to_owned()
        },
    }
}

fn opt_str(o: &Option<String>) -> (r: Option<&str>)
    ensures
        match r {
            Some(s) => o matches Some(t) && s@ == t@,
            None => o is None,
        },
{
    match o {
        Some(s) => Some(s.as_str()),
        None => None,
    }
}

/// A duration variable read as a span of whole seconds.
pub open spec fn seconds_span(raw: Option<Seq<char>>, default: u64, span: Span) -> bool {
    seconds_var(raw, default) == Some(span.secs) && span.nanos == 0
}

/// A duration variable that holds no number, and the error that names it.
pub open spec fn names_bad_seconds(e: ConfigError, variable: Seq<char>, raw: Option<Seq<char>>) -> bool {
    e matches ConfigError::NotSeconds { variable: v, raw: got } && v@ == variable && raw == Some(got@)
}

/// Reads the settings from the variables' raw values, in the order startup reads them:
/// the catalog list, each selected catalog's maximum age, the listen address (whether it
/// parses is `bind_parses`), then the Docker Hub interval, the refresh jitter, the retry
/// base and the retry ceiling. The first value that cannot be read is the error. Unset
/// variables take their defaults: every catalog, a week for Minecraft and a day for the
/// others, one hour, ten minutes, one minute, one hour, `./data`, and the service's own
/// user agent; an empty token is no token.
pub fn config_from_vars(raw: &RawSettings, bind: &str, bind_parses: bool) -> (res: Result<Config, ConfigError>)
    requires
        raw.max_age@.len() == 7,
    ensures
        match catalog_list(opt_text(raw.catalogs)) {
            None => match raw.catalogs {
                None => false,
                Some(r) => match select_catalogs(split_all(r@, ',')) {
                    Err(name) => res matches Err(ConfigError::UnknownCatalog { name: n }) && n@ == name,
                    Ok(_) => res matches Err(ConfigError::NoCatalogs),
                },
            },
            Some(ids) => if exists|k: int| 0 <= k < ids.len() && #[trigger] max_age_fails(*raw, ids, k) {
                exists|k: int|
                    0 <= k < ids.len() && #[trigger] max_age_fails(*raw, ids, k) && (forall|j: int|
                        0 <= j < k ==> !max_age_fails(*raw, ids, j)) && (res matches Err(e)
                        && names_bad_seconds(e, max_age_var_name(ids[k]), max_age_raw(*raw, ids[k])))
            } else if !bind_parses {
                res matches Err(ConfigError::BadAddress { raw: r }) && r@ == bind@
            } else if seconds_var(opt_text(raw.docker_min_interval), 3600) is None {
                res matches Err(e) && names_bad_seconds(e, "WAREHOUSE_DOCKER_MIN_INTERVAL"@, opt_text(raw.docker_min_interval))
            } else if seconds_var(opt_text(raw.refresh_jitter), 600) is None {
                res matches Err(e) && names_bad_seconds(e, "WAREHOUSE_REFRESH_JITTER"@, opt_text(raw.refresh_jitter))
            } else if seconds_var(opt_text(raw.retry_base), 60) is None {
                res matches Err(e) && names_bad_seconds(e, "WAREHOUSE_RETRY_BASE"@, opt_text(raw.retry_base))
            } else if seconds_var(opt_text(raw.retry_max), 3600) is None {
                res matches Err(e) && names_bad_seconds(e, "WAREHOUSE_RETRY_MAX"@, opt_text(raw.retry_max))
            } else {
                res matches Ok(c) && {
                    &&& c.catalogs@ == ids
                    &&& c.max_age@.len() == ids.len()
                    &&& forall|k: int|
                        0 <= k < ids.len() ==> (#[trigger] c.max_age@[k]).0 == ids[k] && seconds_span(
                            max_age_raw(*raw, ids[k]),
                            spec_default_max_age(ids[k]),
                            c.max_age@[k].1,
                        )
                    &&& seconds_span(opt_text(raw.docker_min_interval), 3600, c.docker_min_interval)
                    &&& seconds_span(opt_text(raw.refresh_jitter), 600, c.refresh_jitter)
                    &&& seconds_span(opt_text(raw.retry_base), 60, c.retry_base)
                    &&& seconds_span(opt_text(raw.retry_max), 3600, c.retry_max)
                    &&& c.token == match raw.token {
                        Some(t) => if t@.len() > 0 { Some(t) } else { None },
                        None => None,
                    }
                    &&& c.data_dir@ == match raw.data_dir {
                        Some(d) => d@,
                        None => default_data_dir(),
                    }
                    &&& c.user_agent@ == match raw.user_agent {
                        Some(u) => u@,
                        None => default_user_agent(),
                    }
                }
            },
        },
{
    proof {
        reveal_strlit("WAREHOUSE_DOCKER_MIN_INTERVAL");
        reveal_strlit("WAREHOUSE_REFRESH_JITTER");
        reveal_strlit("WAREHOUSE_RETRY_BASE");
        reveal_strlit("WAREHOUSE_RETRY_MAX");
    }
    let ids = match catalogs_var(opt_str(&raw.catalogs)) {
        Ok(ids) => ids,
        Err(e) => return Err(e),
    };
    let ghost sel = ids@;
    assert(catalog_list(opt_text(raw.catalogs)) == Some(sel));
    let mut max_age: Vec<(CatalogId, Span)> = Vec::new();
    let mut k: usize = 0;
    while k < ids.len()
        invariant
            k <= ids@.len(),
            ids@ == sel,
            catalog_list(opt_text(raw.catalogs)) == Some(sel),
            raw.max_age@.len() == 7,
            max_age@.len() == k,
            forall|j: int| 0 <= j < k ==> !max_age_fails(*raw, sel, j),
            forall|j: int|
                0 <= j < k ==> (#[trigger] max_age@[j]).0 == sel[j] && seconds_span(
                    max_age_raw(*raw, sel[j]),
                    spec_default_max_age(sel[j]),
                    max_age@[j].1,
                ),
        decreases ids@.len() - k,
    {
        let id = ids[k];
        let name = max_age_var(id);
        let slot = id.rank();
        let value = opt_str(&raw.max_age[slot]);
        assert(raw.max_age@[catalog_rank(id) as int] == raw.max_age@[slot as int]);
        match duration_var(name.as_str(), value, default_max_age(id)) {
            Ok(span) => {
                max_age.push((id, span));
            },
            Err(e) => {
                assert(max_age_fails(*raw, sel, k as int));
                assert(names_bad_seconds(e, max_age_var_name(sel[k as int]), max_age_raw(*raw, sel[k as int])));
                return Err(e);
            },
        }
        k = k + 1;
    }
    if !bind_parses {
        return Err(ConfigError::BadAddress { raw: bind.to_owned() });
    }
    let docker_min_interval = duration_var("WAREHOUSE_DOCKER_MIN_INTERVAL", opt_str(&raw.docker_min_interval), 3600)?;
    let refresh_jitter = duration_var("WAREHOUSE_REFRESH_JITTER", opt_str(&raw.refresh_jitter), 600)?;
    let retry_base = duration_var("WAREHOUSE_RETRY_BASE", opt_str(&raw.retry_base), 60)?;
    let retry_max = duration_var("WAREHOUSE_RETRY_MAX", opt_str(&raw.retry_max), 3600)?;
    let data_dir = match &raw.data_dir {
        Some(d) => d.clone(),
        None => {
            proof {
                reveal_strlit("./data");
            }
            "./data".to_owned()
        },
    };
    let user_agent = match &raw.user_agent {
        Some(u) => u.clone(),
        None => {
            proof {
                reveal_strlit("warehouse/0.1.0 (+https://github.com/InvalidJoker/warehouse)");
            }
            "warehouse/0.1.0 (+https://github.com/InvalidJoker/warehouse)".to_owned()
        },
    };
    Ok(Config {
        token: token_var(raw.token.clone()),
        data_dir,
        user_agent,
        catalogs: ids,
        docker_min_interval,
        refresh_jitter,
        retry_base,
        retry_max,
        max_age,
    })
}

/// The settings the service runs with, as far as its logic reads them.
#[derive(Debug, Clone)]
pub struct Config {
    /// Bearer token required on every route but the health check.
    pub token: Option<String>,
    /// Where catalogs are persisted.
    pub data_dir: String,
    /// Sent to every upstream.
    pub user_agent: String,
    /// The catalogs served, each once.
    pub catalogs: Vec<CatalogId>,
    /// Minimum spacing between Docker Hub reads.
    pub docker_min_interval: Span,
    /// Random delay added to refreshes.
    pub refresh_jitter: Span,
    /// Delay after a first failure, doubled per failure.
    pub retry_base: Span,
    /// Ceiling for that backoff.
    pub retry_max: Span,
    /// Maximum age of each configured catalog.
    pub max_age: Vec<(CatalogId, Span)>,
}

impl Config {
    /// How long catalog `id` may go unrefreshed: its configured maximum age, or the
    /// default.
    pub fn max_age(&self, id: CatalogId) -> (age: Span)
        ensures
            (exists|i: int| 0 <= i < self.max_age@.len() && (#[trigger] self.max_age@[i]).0 == id)
                ==> exists|i: int|
                0 <= i < self.max_age@.len() && (#[trigger] self.max_age@[i]).0 == id && age
                    == self.max_age@[i].1 && forall|j: int| 0 <= j < i ==> self.max_age@[j].0 != id,
            (forall|i: int| 0 <= i < self.max_age@.len() ==> (#[trigger] self.max_age@[i]).0 != id)
                ==> age == (Span { secs: spec_default_max_age(id), nanos: 0 }),
    {
        let mut i: usize = 0;
        while i < self.max_age.len()
            invariant
                i <= self.max_age@.len(),
                forall|j: int| 0 <= j < i ==> (#[trigger] self.max_age@[j]).0 != id,
            decreases self.max_age@.len() - i,
        {
            if self.max_age[i].0 == id {
                return self.max_age[i].1;
            }
            i = i + 1;
        }
        Span::from_secs(default_max_age(id))
    }
}

} // verus!
