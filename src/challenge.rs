//! The `WWW-Authenticate` challenge: `Method key="value", key="value", ...`.
//!
//! A header is read as optional whitespace, a method word (an upper-case
//! letter and one or more lower-case letters) followed by whitespace, then
//! one or more pairs `key="value"` (a key of lower-case letters, a non-empty
//! value without `"`, whitespace allowed around `=`), the pairs separated by
//! any run of whitespace and commas. The method and the known keys are then
//! mapped onto a Basic or a Bearer challenge.
use vstd::prelude::*;
use vstd::utf8::{decode_utf8, valid_utf8};
use crate::text::{opt_view, chars_of, chars_eq, decode_text, string_from_chars, string_from_range};

verus! {

/// Why a challenge header was rejected.
#[derive(Debug, Clone, Copy, PartialEq, Eq, Structural)]
pub enum WwwHeaderParseError {
    /// The header is not a method followed by `key="value"` pairs, names an
    /// unknown method, or lacks or repeats a key that the method knows.
    InvalidValue,
    /// The pairs are well formed but no method word precedes them.
    FieldMethodMissing,
    /// The header bytes are not UTF-8 text.
    InvalidEncoding,
}

/// Parameters of a Bearer challenge.
#[derive(Debug, Clone, PartialEq, Eq)]
pub struct WwwAuthenticateHeaderContentBearer {
    pub realm: String,
    pub service: Option<String>,
    pub scope: Option<String>,
}

/// Parameters of a Basic challenge.
#[derive(Debug, Clone, PartialEq, Eq)]
pub struct WwwAuthenticateHeaderContentBasic {
    pub realm: String,
}

/// A parsed challenge.
#[derive(Debug, Clone, PartialEq, Eq)]
pub enum WwwAuthenticateHeaderContent {
    Bearer(WwwAuthenticateHeaderContentBearer),
    Basic(WwwAuthenticateHeaderContentBasic),
}

/// The mathematical value of a challenge.
pub ghost enum ChallengeModel {
    Bearer { realm: Seq<char>, service: Option<Seq<char>>, scope: Option<Seq<char>> },
    Basic { realm: Seq<char> },
}

impl View for WwwAuthenticateHeaderContent {
    type V = ChallengeModel;

    open spec fn view(&self) -> ChallengeModel {
        match self {
            WwwAuthenticateHeaderContent::Bearer(b) => ChallengeModel::Bearer {
                realm: b.realm@,
                service: opt_view(b.service),
                scope: opt_view(b.scope),
            },
            WwwAuthenticateHeaderContent::Basic(b) => ChallengeModel::Basic { realm: b.realm@ },
        }
    }
}

/// A set of characters that a run of the header is made of.
#[derive(Debug, Clone, Copy, PartialEq, Eq, Structural)]
pub enum CharClass {
    /// Whitespace.
    Space,
    /// Whitespace and commas, between pairs.
    Separator,
    /// Lower-case ASCII letters, the characters of a key.
    Lower,
    /// Anything but a double quote, the characters of a value.
    Unquoted,
}

pub open spec fn is_space(c: char) -> bool {
    c == ' ' || c == '\t' || c == '\n' || c == '\r' || c == '\x0b' || c == '\x0c'
}

pub open spec fn is_upper(c: char) -> bool {
    'A' <= c <= 'Z'
}

pub open spec fn is_lower(c: char) -> bool {
    'a' <= c <= 'z'
}

pub open spec fn in_class(c: char, class: CharClass) -> bool {
    match class {
        CharClass::Space => is_space(c),
        CharClass::Separator => is_space(c) || c == ',',
        CharClass::Lower => is_lower(c),
        CharClass::Unquoted => c != '"',
    }
}

/// The end of the longest run of `class` that starts at `i`.
pub open spec fn run_end(h: Seq<char>, i: int, class: CharClass) -> int
    decreases h.len() - i,
{
    if 0 <= i < h.len() && in_class(h[i], class) {
        run_end(h, i + 1, class)
    } else {
        i
    }
}

/// The pair `key="value"` that starts at `j`: its key, its value, and where it ends.
pub open spec fn pair_at(h: Seq<char>, j: int) -> Option<(Seq<char>, Seq<char>, int)> {
    let k_end = run_end(h, j, CharClass::Lower);
    let eq = run_end(h, k_end, CharClass::Space);
    let q = run_end(h, eq + 1, CharClass::Space);
    let v_end = run_end(h, q + 1, CharClass::Unquoted);
    if k_end > j && eq < h.len() && h[eq] == '=' && q < h.len() && h[q] == '"' && v_end > q + 1
        && v_end < h.len() {
        Some((h.subrange(j, k_end), h.subrange(q + 1, v_end), v_end + 1))
    } else {
        None
    }
}

/// The pairs from `i` to the end of the header, each preceded by separators.
pub open spec fn scan_pairs(h: Seq<char>, i: int) -> Option<Seq<(Seq<char>, Seq<char>)>>
    decreases h.len() - i,
{
    let j = run_end(h, i, CharClass::Separator);
    if j >= h.len() {
        Some(Seq::empty())
    } else if j < i {
        None
    } else {
        match pair_at(h, j) {
            Some((k, v, e)) => if e > j {
                match scan_pairs(h, e) {
                    Some(rest) => Some(seq![(k, v)] + rest),
                    None => None,
                }
            } else {
                None
            },
            None => None,
        }
    }
}

/// Where the method word ends, if the header (after leading whitespace)
/// starts with one followed by whitespace.
pub open spec fn method_end(h: Seq<char>) -> Option<int> {
    let i = run_end(h, 0, CharClass::Space);
    let m = run_end(h, i + 1, CharClass::Lower);
    if i < h.len() && is_upper(h[i]) && m > i + 1 && m < h.len() && is_space(h[m]) {
        Some(m)
    } else {
        None
    }
}

/// How often a key occurs among the pairs, and its value where it occurs once.
pub ghost enum Occurrence {
    Absent,
    Once(Seq<char>),
    Repeated,
}

pub open spec fn occurrence(pairs: Seq<(Seq<char>, Seq<char>)>, key: Seq<char>) -> Occurrence
    decreases pairs.len(),
{
    if pairs.len() == 0 {
        Occurrence::Absent
    } else {
        let before = occurrence(pairs.drop_last(), key);
        if pairs.last().0 == key {
            match before {
                Occurrence::Absent => Occurrence::Once(pairs.last().1),
                _ => Occurrence::Repeated,
            }
        } else {
            before
        }
    }
}

/// The challenge that a method and its pairs describe. Keys that the method
/// does not know are ignored.
pub open spec fn challenge_of(method: Seq<char>, pairs: Seq<(Seq<char>, Seq<char>)>) -> Result<
    ChallengeModel,
    WwwHeaderParseError,
> {
    let realm = occurrence(pairs, "realm"@);
    let service = occurrence(pairs, "service"@);
    let scope = occurrence(pairs, "scope"@);
    if method == "Basic"@ {
        match realm {
            Occurrence::Once(r) => Ok(ChallengeModel::Basic { realm: r }),
            _ => Err(WwwHeaderParseError::InvalidValue),
        }
    } else if method == "Bearer"@ {
        match (realm, service, scope) {
            (Occurrence::Once(r), Occurrence::Absent, Occurrence::Absent) => Ok(
                ChallengeModel::Bearer { realm: r, service: None, scope: None },
            ),
            (Occurrence::Once(r), Occurrence::Once(sv), Occurrence::Absent) => Ok(
                ChallengeModel::Bearer { realm: r, service: Some(sv), scope: None },
            ),
            (Occurrence::Once(r), Occurrence::Absent, Occurrence::Once(sc)) => Ok(
                ChallengeModel::Bearer { realm: r, service: None, scope: Some(sc) },
            ),
            (Occurrence::Once(r), Occurrence::Once(sv), Occurrence::Once(sc)) => Ok(
                ChallengeModel::Bearer { realm: r, service: Some(sv), scope: Some(sc) },
            ),
            _ => Err(WwwHeaderParseError::InvalidValue),
        }
    } else {
        Err(WwwHeaderParseError::InvalidValue)
    }
}

/// The challenge that a header text describes.
pub open spec fn parse_spec(h: Seq<char>) -> Result<ChallengeModel, WwwHeaderParseError> {
    match method_end(h) {
        Some(m) => {
            let i = run_end(h, 0, CharClass::Space);
            match scan_pairs(h, m) {
                Some(pairs) => if pairs.len() > 0 {
                    challenge_of(h.subrange(i, m), pairs)
                } else {
                    Err(WwwHeaderParseError::InvalidValue)
                },
                None => Err(WwwHeaderParseError::InvalidValue),
            }
        },
        None => match scan_pairs(h, run_end(h, 0, CharClass::Space)) {
            Some(pairs) => if pairs.len() > 0 {
                Err(WwwHeaderParseError::FieldMethodMissing)
            } else {
                Err(WwwHeaderParseError::InvalidValue)
            },
            None => Err(WwwHeaderParseError::InvalidValue),
        },
    }
}

/// The challenge that header bytes describe.
pub open spec fn parse_bytes_spec(b: Seq<u8>) -> Result<ChallengeModel, WwwHeaderParseError> {
    if valid_utf8(b) {
        parse_spec(decode_utf8(b))
    } else {
        Err(WwwHeaderParseError::InvalidEncoding)
    }
}

pub open spec fn result_view(r: Result<WwwAuthenticateHeaderContent, WwwHeaderParseError>) -> Result<
    ChallengeModel,
    WwwHeaderParseError,
> {
    match r {
        Ok(c) => Ok(c@),
        Err(e) => Err(e),
    }
}

fn class_holds(c: char, class: CharClass) -> (r: bool)
    ensures
        r == in_class(c, class),
{
    match class {
        CharClass::Space => c == ' ' || c == '\t' || c == '\n' || c == '\r' || c == '\x0b' || c
            == '\x0c',
        CharClass::Separator => c == ' ' || c == '\t' || c == '\n' || c == '\r' || c == '\x0b'
            || c == '\x0c' || c == ',',
        CharClass::Lower => 'a' <= c && c <= 'z',
        CharClass::Unquoted => c != '"',
    }
}

proof fn lemma_run_end_bounds(h: Seq<char>, i: int, class: CharClass)
    requires
        0 <= i,
    ensures
        i <= run_end(h, i, class),
        i <= h.len() ==> run_end(h, i, class) <= h.len(),
        forall|k: int| i <= k < run_end(h, i, class) ==> in_class(#[trigger] h[k], class),
    decreases h.len() - i,
{
    if 0 <= i < h.len() && in_class(h[i], class) {
        lemma_run_end_bounds(h, i + 1, class);
    }
}

/// The end of the run of `class` in `h` that starts at `i`.
fn skip_run(h: &Vec<char>, i: usize, class: CharClass) -> (r: usize)
    requires
        i <= h.len(),
    ensures
        r == run_end(h@, i as int, class),
        i <= r <= h.len(),
{
    let mut k: usize = i;
    while k < h.len() && class_holds(h[k], class)
        invariant
            i <= k <= h.len(),
            run_end(h@, i as int, class) == run_end(h@, k as int, class),
        decreases h.len() - k,
    {
        k = k + 1;
    }
    proof {
        lemma_run_end_bounds(h@, i as int, class);
    }
    k
}

/// The pair `key="value"` that starts at `j`, as its key, value and end.
fn read_pair(h: &Vec<char>, j: usize) -> (r: Option<(String, String, usize)>)
    requires
        j <= h.len(),
    ensures
        match pair_at(h@, j as int) {
            Some((k, v, e)) => r matches Some((rk, rv, re)) && rk@ == k && rv@ == v && re == e,
            None => r is None,
        },
        r matches Some((_, _, e)) ==> j < e <= h.len(),
{
    let k_end = skip_run(h, j, CharClass::Lower);
    let eq = skip_run(h, k_end, CharClass::Space);
    if !(k_end > j && eq < h.len() && h[eq] == '=') {
        return None;
    }
    let q = skip_run(h, eq + 1, CharClass::Space);
    if !(q < h.len() && h[q] == '"') {
        return None;
    }
    let v_end = skip_run(h, q + 1, CharClass::Unquoted);
    if !(v_end > q + 1 && v_end < h.len()) {
        return None;
    }
    Some((string_from_range(h, j, k_end), string_from_range(h, q + 1, v_end), v_end + 1))
}

/// The pairs from `i` to the end of the header.
fn read_pairs(h: &Vec<char>, i: usize) -> (r: Option<Vec<(String, String)>>)
    requires
        i <= h.len(),
    ensures
        match scan_pairs(h@, i as int) {
            Some(ps) => r matches Some(v) && pairs_view(v@) == ps,
            None => r is None,
        },
{
    let mut out: Vec<(String, String)> = Vec::new();
    let mut pos: usize = i;
    loop
        invariant
            i <= pos <= h.len(),
            scan_pairs(h@, i as int) == match scan_pairs(h@, pos as int) {
                Some(rest) => Some(pairs_view(out@) + rest),
                None => None::<Seq<(Seq<char>, Seq<char>)>>,
            },
        decreases h.len() - pos,
    {
        let j = skip_run(h, pos, CharClass::Separator);
        if j >= h.len() {
            assert(pairs_view(out@) + Seq::<(Seq<char>, Seq<char>)>::empty() =~= pairs_view(
                out@,
            ));
            return Some(out);
        }
        match read_pair(h, j) {
            Some((k, v, e)) => {
                let ghost old_out = out@;
                let ghost kv = (k@, v@);
                out.push((k, v));
                proof {
                    assert(pairs_view(out@) =~= pairs_view(old_out).push(kv));
                    match scan_pairs(h@, e as int) {
                        Some(rest) => {
                            assert(pairs_view(old_out) + (seq![kv] + rest) =~= pairs_view(out@)
                                + rest);
                        },
                        None => {},
                    }
                }
                pos = e;
            },
            None => {
                return None;
            },
        }
    }
}

pub open spec fn pairs_view(v: Seq<(String, String)>) -> Seq<(Seq<char>, Seq<char>)> {
    v.map_values(|p: (String, String)| (p.0@, p.1@))
}

/// How often `key` occurs among the pairs, with its value where it occurs once.
fn find_key(pairs: &Vec<(String, String)>, key: &str) -> (r: (usize, Option<String>))
    ensures
        match occurrence(pairs_view(pairs@), key@) {
            Occurrence::Absent => r.0 == 0,
            Occurrence::Once(v) => r.0 == 1 && (r.1 matches Some(s) && s@ == v),
            Occurrence::Repeated => r.0 > 1,
        },
{
    let key_chars = chars_of(key);
    let mut count: usize = 0;
    let mut found: Option<String> = None;
    let mut i: usize = 0;
    while i < pairs.len()
        invariant
            i <= pairs.len(),
            key_chars@ == key@,
            count <= i,
            match occurrence(pairs_view(pairs@).take(i as int), key@) {
                Occurrence::Absent => count == 0,
                Occurrence::Once(v) => count == 1 && (found matches Some(s) && s@ == v),
                Occurrence::Repeated => count > 1,
            },
        decreases pairs.len() - i,
    {
        let ghost before = pairs_view(pairs@).take(i as int);
        let same = chars_eq(&chars_of(pairs[i].0.as_str()), &key_chars);
        if same {
            if count == 0 {
                found = Some(pairs[i].1.clone());
            }
            count = count + 1;
        }
        i = i + 1;
        assert(pairs_view(pairs@).take(i as int).drop_last() =~= before);
    }
    assert(pairs_view(pairs@).take(i as int) =~= pairs_view(pairs@));
    (count, found)
}

/// The challenge of a method and its pairs.
fn build_challenge(method: &Vec<char>, pairs: &Vec<(String, String)>) -> (r: Result<
    WwwAuthenticateHeaderContent,
    WwwHeaderParseError,
>)
    ensures
        result_view(r) == challenge_of(method@, pairs_view(pairs@)),
{
    let (n_realm, realm) = find_key(pairs, "realm");
    let (n_service, service) = find_key(pairs, "service");
    let (n_scope, scope) = find_key(pairs, "scope");
    let basic = chars_of("Basic");
    let bearer = chars_of("Bearer");
    if chars_eq(method, &basic) {
        if n_realm == 1 {
            match realm {
                Some(r) => Ok(
                    WwwAuthenticateHeaderContent::Basic(WwwAuthenticateHeaderContentBasic { realm: r }),
                ),
                None => Err(WwwHeaderParseError::InvalidValue),
            }
        } else {
            Err(WwwHeaderParseError::InvalidValue)
        }
    } else if chars_eq(method, &bearer) {
        if n_realm == 1 && n_service <= 1 && n_scope <= 1 {
            match realm {
                Some(r) => Ok(
                    WwwAuthenticateHeaderContent::Bearer(
                        WwwAuthenticateHeaderContentBearer {
                            realm: r,
                            service: if n_service == 1 { service } else { None },
                            scope: if n_scope == 1 { scope } else { None },
                        },
                    ),
                ),
                None => Err(WwwHeaderParseError::InvalidValue),
            }
        } else {
            Err(WwwHeaderParseError::InvalidValue)
        }
    } else {
        Err(WwwHeaderParseError::InvalidValue)
    }
}

/// Whether a method knows a key.
pub open spec fn known_key(method: Seq<char>, key: Seq<char>) -> bool {
    key == "realm"@ || (method == "Bearer"@ && (key == "service"@ || key == "scope"@))
}

/// The keys, in order, that the method does not know.
pub open spec fn unknown_keys(method: Seq<char>, pairs: Seq<(Seq<char>, Seq<char>)>) -> Seq<
    Seq<char>,
>
    decreases pairs.len(),
{
    if pairs.len() == 0 {
        Seq::empty()
    } else {
        let before = unknown_keys(method, pairs.drop_last());
        if known_key(method, pairs.last().0) {
            before
        } else {
            before.push(pairs.last().0)
        }
    }
}

/// The keys of a header that its challenge ignores: none where the header
/// has no method word or its pairs are malformed.
pub open spec fn ignored_keys_spec(h: Seq<char>) -> Seq<Seq<char>> {
    match method_end(h) {
        Some(m) => match scan_pairs(h, m) {
            Some(pairs) => unknown_keys(h.subrange(run_end(h, 0, CharClass::Space), m), pairs),
            None => Seq::empty(),
        },
        None => Seq::empty(),
    }
}

fn keys_unknown_to(method: &Vec<char>, pairs: &Vec<(String, String)>) -> (r: Vec<String>)
    ensures
        r@.map_values(|s: String| s@) == unknown_keys(method@, pairs_view(pairs@)),
{
    let bearer = chars_eq(method, &chars_of("Bearer"));
    let realm = chars_of("realm");
    let service = chars_of("service");
    let scope = chars_of("scope");
    let mut out: Vec<String> = Vec::new();
    let mut i: usize = 0;
    while i < pairs.len()
        invariant
            i <= pairs.len(),
            bearer == (method@ == "Bearer"@),
            realm@ == "realm"@,
            service@ == "service"@,
            scope@ == "scope"@,
            out@.map_values(|s: String| s@) == unknown_keys(
                method@,
                pairs_view(pairs@).take(i as int),
            ),
        decreases pairs.len() - i,
    {
        let ghost before = pairs_view(pairs@).take(i as int);
        let key = chars_of(pairs[i].0.as_str());
        let known = chars_eq(&key, &realm) || (bearer && (chars_eq(&key, &service) || chars_eq(
            &key,
            &scope,
        )));
        let ghost old_out = out@;
        if !known {
            out.push(string_from_chars(&key));
            assert(out@.map_values(|s: String| s@) =~= old_out.map_values(|s: String| s@).push(
                key@,
            ));
        }
        i = i + 1;
        assert(pairs_view(pairs@).take(i as int).drop_last() =~= before);
    }
    assert(pairs_view(pairs@).take(i as int) =~= pairs_view(pairs@));
    out
}

impl WwwAuthenticateHeaderContent {
    /// Parses the text of a `WWW-Authenticate` header.
    pub fn parse(header: &str) -> (r: Result<WwwAuthenticateHeaderContent, WwwHeaderParseError>)
        ensures
            result_view(r) == parse_spec(header@),
    {
        let h = chars_of(header);
        let i = skip_run(&h, 0, CharClass::Space);
        let mut has_method = false;
        let mut m: usize = 0;
        if i < h.len() && 'A' <= h[i] && h[i] <= 'Z' {
            m = skip_run(&h, i + 1, CharClass::Lower);
            has_method = m > i + 1 && m < h.len() && class_holds(h[m], CharClass::Space);
        }
        if has_method {
            match read_pairs(&h, m) {
                Some(pairs) => if pairs.len() > 0 {
                    let method = chars_of(string_from_range(&h, i, m).as_str());
                    build_challenge(&method, &pairs)
                } else {
                    Err(WwwHeaderParseError::InvalidValue)
                },
                None => Err(WwwHeaderParseError::InvalidValue),
            }
        } else {
            match read_pairs(&h, i) {
                Some(pairs) => if pairs.len() > 0 {
                    Err(WwwHeaderParseError::FieldMethodMissing)
                } else {
                    Err(WwwHeaderParseError::InvalidValue)
                },
                None => Err(WwwHeaderParseError::InvalidValue),
            }
        }
    }

    /// The keys of a header that its challenge ignores, for diagnostics.
    pub fn ignored_keys(header: &str) -> (r: Vec<String>)
        ensures
            r@.map_values(|s: String| s@) == ignored_keys_spec(header@),
    {
        let h = chars_of(header);
        let i = skip_run(&h, 0, CharClass::Space);
        if !(i < h.len() && 'A' <= h[i] && h[i] <= 'Z') {
            return Vec::new();
        }
        let m = skip_run(&h, i + 1, CharClass::Lower);
        if !(m > i + 1 && m < h.len() && class_holds(h[m], CharClass::Space)) {
            return Vec::new();
        }
        match read_pairs(&h, m) {
            Some(pairs) => {
                let method = chars_of(string_from_range(&h, i, m).as_str());
                keys_unknown_to(&method, &pairs)
            },
            None => Vec::new(),
        }
    }

    /// Parses the raw bytes of a `WWW-Authenticate` header.
    pub fn from_www_authentication_header(header_value: &[u8]) -> (r: Result<
        WwwAuthenticateHeaderContent,
        WwwHeaderParseError,
    >)
        ensures
            result_view(r) == parse_bytes_spec(header_value@),
    {
        match decode_text(header_value) {
            Some(text) => WwwAuthenticateHeaderContent::parse(text),
            None => Err(WwwHeaderParseError::InvalidEncoding),
        }
    }
}


/// The text of one pair: `key="value"`.
pub open spec fn pair_text(k: Seq<char>, v: Seq<char>) -> Seq<char> {
    k + seq!['=', '"'] + v + seq!['"']
}

/// The text of the pairs, joined by `, `.
pub open spec fn pairs_text(ps: Seq<(Seq<char>, Seq<char>)>) -> Seq<char>
    decreases ps.len(),
{
    if ps.len() == 0 {
        Seq::empty()
    } else if ps.len() == 1 {
        pair_text(ps[0].0, ps[0].1)
    } else {
        pair_text(ps[0].0, ps[0].1) + seq![',', ' '] + pairs_text(ps.drop_first())
    }
}

/// The header `Method key="value", key="value", ...`.
pub open spec fn header_text(method: Seq<char>, ps: Seq<(Seq<char>, Seq<char>)>) -> Seq<char> {
    method + seq![' '] + pairs_text(ps)
}

/// A key of lower-case letters and a value without `"`, both non-empty.
pub open spec fn well_formed_pair(p: (Seq<char>, Seq<char>)) -> bool {
    &&& p.0.len() > 0
    &&& forall|i: int| 0 <= i < p.0.len() ==> is_lower(#[trigger] p.0[i])
    &&& p.1.len() > 0
    &&& forall|i: int| 0 <= i < p.1.len() ==> #[trigger] p.1[i] != '"'
}

/// A method word: an upper-case letter and one or more lower-case letters.
pub open spec fn method_word(m: Seq<char>) -> bool {
    &&& m.len() > 1
    &&& is_upper(m[0])
    &&& forall|i: int| 1 <= i < m.len() ==> is_lower(#[trigger] m[i])
}

/// The value of a key that occurs at most once.
pub open spec fn optional_value(o: Occurrence) -> Option<Seq<char>> {
    match o {
        Occurrence::Once(v) => Some(v),
        _ => None,
    }
}

proof fn lemma_run_end_exact(h: Seq<char>, i: int, e: int, class: CharClass)
    requires
        0 <= i <= e <= h.len(),
        forall|k: int| i <= k < e ==> in_class(#[trigger] h[k], class),
        e == h.len() || !in_class(h[e], class),
    ensures
        run_end(h, i, class) == e,
    decreases e - i,
{
    if i < e {
        lemma_run_end_exact(h, i + 1, e, class);
    }
}

proof fn lemma_pair_at_text(h: Seq<char>, j: int, k: Seq<char>, v: Seq<char>)
    requires
        0 <= j,
        j + pair_text(k, v).len() <= h.len(),
        h.subrange(j, j + pair_text(k, v).len()) == pair_text(k, v),
        well_formed_pair((k, v)),
    ensures
        pair_at(h, j) == Some((k, v, j + pair_text(k, v).len())),
{
    let t = pair_text(k, v);
    let kl = k.len() as int;
    let vl = v.len() as int;
    assert forall|x: int| 0 <= x < t.len() implies h[j + x] == t[x] by {
        assert(h.subrange(j, j + t.len())[x] == h[j + x]);
    }
    let a = k + seq!['=', '"'];
    assert(a[kl] == '=' && a[kl + 1] == '"');
    assert((a + v)[kl] == '=' && (a + v)[kl + 1] == '"');
    assert(t[kl] == '=' && t[kl + 1] == '"');
    assert(t[kl + 2 + vl] == '"');
    assert(h[j + kl] == t[kl]);
    assert(h[j + kl + 1] == t[kl + 1]);
    assert(h[j + kl + 2 + vl] == t[kl + 2 + vl]);
    assert forall|x: int| j <= x < j + kl implies in_class(#[trigger] h[x], CharClass::Lower) by {
        assert(h[j + (x - j)] == t[x - j]);
    }
    lemma_run_end_exact(h, j, j + kl, CharClass::Lower);
    lemma_run_end_exact(h, j + kl, j + kl, CharClass::Space);
    lemma_run_end_exact(h, j + kl + 1, j + kl + 1, CharClass::Space);
    assert forall|x: int| j + kl + 2 <= x < j + kl + 2 + vl implies in_class(
        #[trigger] h[x],
        CharClass::Unquoted,
    ) by {
        assert(h[j + (x - j)] == t[x - j]);
        assert(t[x - j] == v[x - j - kl - 2]);
    }
    lemma_run_end_exact(h, j + kl + 2, j + kl + 2 + vl, CharClass::Unquoted);
    assert(h.subrange(j, j + kl) =~= k) by {
        assert forall|x: int| 0 <= x < kl implies h.subrange(j, j + kl)[x] == k[x] by {
            assert(h[j + x] == t[x]);
        }
    }
    assert(h.subrange(j + kl + 2, j + kl + 2 + vl) =~= v) by {
        assert forall|x: int| 0 <= x < vl implies h.subrange(j + kl + 2, j + kl + 2 + vl)[x]
            == v[x] by {
            assert(h[j + (kl + 2 + x)] == t[kl + 2 + x]);
        }
    }
}

proof fn lemma_scan_text(h: Seq<char>, i: int, j: int, ps: Seq<(Seq<char>, Seq<char>)>)
    requires
        0 <= i <= j <= h.len(),
        forall|x: int| i <= x < j ==> in_class(#[trigger] h[x], CharClass::Separator),
        h.subrange(j, h.len() as int) == pairs_text(ps),
        ps.len() > 0,
        forall|x: int| 0 <= x < ps.len() ==> well_formed_pair(#[trigger] ps[x]),
    ensures
        scan_pairs(h, i) == Some(ps),
    decreases ps.len(),
{
    let k = ps[0].0;
    let v = ps[0].1;
    let t = pair_text(k, v);
    let rest_text = pairs_text(ps);
    assert(well_formed_pair(ps[0]));
    if ps.len() > 1 {
        assert(rest_text == t + seq![',', ' '] + pairs_text(ps.drop_first()));
    }
    assert(t.len() <= rest_text.len());
    assert forall|x: int| 0 <= x < t.len() implies rest_text[x] == t[x] by {
        if ps.len() > 1 {
            assert((t + seq![',', ' '])[x] == t[x]);
        }
    }
    assert(h.subrange(j, j + t.len()) =~= t) by {
        assert forall|x: int| 0 <= x < t.len() implies h.subrange(j, j + t.len())[x] == t[x] by {
            assert(h.subrange(j, h.len() as int)[x] == h[j + x]);
        }
    }
    assert(h[j] == k[0]) by {
        assert(h.subrange(j, h.len() as int)[0] == h[j]);
    }
    lemma_run_end_exact(h, i, j, CharClass::Separator);
    lemma_pair_at_text(h, j, k, v);
    let e = j + t.len();
    if ps.len() == 1 {
        assert(e == h.len());
        lemma_run_end_exact(h, e, e, CharClass::Separator);
        assert(seq![(k, v)] + Seq::<(Seq<char>, Seq<char>)>::empty() =~= ps);
    } else {
        let rest = ps.drop_first();
        assert(h[e] == ',') by {
            assert(h.subrange(j, h.len() as int)[t.len() as int] == h[e]);
        }
        assert(h[e + 1] == ' ') by {
            assert(h.subrange(j, h.len() as int)[t.len() + 1int] == h[e + 1]);
        }
        assert(h.subrange(e + 2, h.len() as int) =~= pairs_text(rest)) by {
            assert forall|x: int| 0 <= x < h.len() - (e + 2) implies h.subrange(
                e + 2,
                h.len() as int,
            )[x] == pairs_text(rest)[x] by {
                assert(h.subrange(j, h.len() as int)[t.len() + 2 + x] == h[e + 2 + x]);
            }
        }
        assert forall|x: int| 0 <= x < rest.len() implies well_formed_pair(#[trigger] rest[x]) by {
            assert(rest[x] == ps[x + 1]);
        }
        lemma_scan_text(h, e, e + 2, rest);
        assert(seq![(k, v)] + rest =~= ps);
    }
}

/// A header made of a method word and well-formed pairs is read back as that
/// method and those pairs: it means the challenge that they describe.
pub proof fn lemma_header_round_trip(method: Seq<char>, ps: Seq<(Seq<char>, Seq<char>)>)
    requires
        method_word(method),
        ps.len() > 0,
        forall|x: int| 0 <= x < ps.len() ==> well_formed_pair(#[trigger] ps[x]),
    ensures
        parse_spec(header_text(method, ps)) == challenge_of(method, ps),
{
    let h = header_text(method, ps);
    let ml = method.len() as int;
    assert(h[0] == method[0]);
    lemma_run_end_exact(h, 0, 0, CharClass::Space);
    assert forall|x: int| 1 <= x < ml implies in_class(#[trigger] h[x], CharClass::Lower) by {
        assert(h[x] == method[x]);
    }
    assert(h[ml] == ' ');
    lemma_run_end_exact(h, 1, ml, CharClass::Lower);
    assert(method_end(h) == Some(ml));
    assert(h.subrange(ml + 1, h.len() as int) =~= pairs_text(ps));
    lemma_scan_text(h, ml, ml + 1, ps);
    assert(h.subrange(0, ml) =~= method);
}

/// A Bearer header whose `realm` occurs once and whose `service` and `scope`
/// occur at most once is parsed into a Bearer challenge that holds each of
/// their values verbatim.
pub proof fn lemma_bearer_round_trip(ps: Seq<(Seq<char>, Seq<char>)>)
    requires
        ps.len() > 0,
        forall|x: int| 0 <= x < ps.len() ==> well_formed_pair(#[trigger] ps[x]),
        occurrence(ps, "realm"@) is Once,
        !(occurrence(ps, "service"@) is Repeated),
        !(occurrence(ps, "scope"@) is Repeated),
    ensures
        parse_spec(header_text("Bearer"@, ps)) == Ok::<ChallengeModel, WwwHeaderParseError>(
            ChallengeModel::Bearer {
                realm: occurrence(ps, "realm"@)->Once_0,
                service: optional_value(occurrence(ps, "service"@)),
                scope: optional_value(occurrence(ps, "scope"@)),
            },
        ),
{
    reveal_strlit("Bearer");
    reveal_strlit("Basic");
    assert("Bearer"@ != "Basic"@) by {
        assert("Bearer"@.len() != "Basic"@.len());
    }
    assert(method_word("Bearer"@));
    lemma_header_round_trip("Bearer"@, ps);
}

/// A Basic header whose `realm` occurs once is parsed into a Basic challenge
/// with that realm, whatever other keys it holds.
pub proof fn lemma_basic_round_trip(ps: Seq<(Seq<char>, Seq<char>)>)
    requires
        ps.len() > 0,
        forall|x: int| 0 <= x < ps.len() ==> well_formed_pair(#[trigger] ps[x]),
        occurrence(ps, "realm"@) is Once,
    ensures
        parse_spec(header_text("Basic"@, ps)) == Ok::<ChallengeModel, WwwHeaderParseError>(
            ChallengeModel::Basic { realm: occurrence(ps, "realm"@)->Once_0 },
        ),
{
    reveal_strlit("Basic");
    assert(method_word("Basic"@));
    lemma_header_round_trip("Basic"@, ps);
}

} // verus!
