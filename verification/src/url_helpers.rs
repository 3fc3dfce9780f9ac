//! Canonical addresses and JSON-pointer fragments.
//!
//! A schema node is identified by a canonical address: an absolute URL whose
//! fragment is always present, begins with `/`, and carries RFC 6901 escaping
//! (`~0` for `~`, `~1` for `/`) on each path segment. This module owns the
//! fragment machinery — escaping, unescaping, splitting into decoded
//! segments — and the [`Address`] type those pieces make up. The URL syntax
//! itself (absolute-URL parsing and reference resolution) is the `url`
//! crate's work, reached through the trusted wrappers at the bottom of the
//! file.

use vstd::prelude::*;

use crate::text::{chars_to_string, str_to_chars};

verus! {

/// A failure while canonicalizing an address.
#[derive(Debug, PartialEq, Eq)]
pub enum UrlError {
    /// The URL syntax itself was rejected.
    ParseError(String),
    /// The URL parsed only by correcting a syntax violation.
    SyntaxViolation(String),
    /// The fragment breaks the RFC 6901 escaping rules; carries the offending
    /// part (`~` alone at the end, or `~` with the character that follows it).
    JsonFragmentError(String),
}

/// RFC 6901 escaping of one path segment: `~` becomes `~0` and `/` becomes
/// `~1`.
pub open spec fn spec_escape(s: Seq<char>) -> Seq<char>
    decreases s.len(),
{
    if s.len() == 0 {
        Seq::empty()
    } else {
        let head: Seq<char> = if s[0] == '~' {
            seq!['~', '0']
        } else if s[0] == '/' {
            seq!['~', '1']
        } else {
            seq![s[0]]
        };
        head + spec_escape(s.drop_first())
    }
}

/// RFC 6901 unescaping of one escaped path segment: `~0` becomes `~` and
/// `~1` becomes `/`.
pub open spec fn spec_unescape(s: Seq<char>) -> Seq<char>
    decreases s.len(),
{
    if s.len() == 0 {
        Seq::empty()
    } else if s[0] == '~' && s.len() >= 2 && (s[1] == '0' || s[1] == '1') {
        let head: char = if s[1] == '0' {
            '~'
        } else {
            '/'
        };
        seq![head] + spec_unescape(s.skip(2))
    } else {
        seq![s[0]] + spec_unescape(s.drop_first())
    }
}

/// The index of the first `/` in a string, if there is one.
pub open spec fn spec_find_slash(s: Seq<char>) -> Option<int>
    decreases s.len(),
{
    if s.len() == 0 {
        None
    } else if s[0] == '/' {
        Some(0)
    } else {
        match spec_find_slash(s.drop_first()) {
            Some(j) => Some(j + 1),
            None => None,
        }
    }
}

/// The first slash of a string lies inside it.
pub proof fn lemma_find_slash_bounds(s: Seq<char>)
    ensures
        match spec_find_slash(s) {
            Some(j) => 0 <= j < s.len() && s[j] == '/',
            None => true,
        },
    decreases s.len(),
{
    if s.len() > 0 && s[0] != '/' {
        lemma_find_slash_bounds(s.drop_first());
    }
}

/// A string split on `/`: always at least one part, empty parts kept.
pub open spec fn spec_split_slashes(s: Seq<char>) -> Seq<Seq<char>>
    decreases s.len(),
    via spec_split_slashes_decreases
{
    match spec_find_slash(s) {
        None => seq![s],
        Some(j) => seq![s.subrange(0, j)] + spec_split_slashes(s.subrange(j + 1, s.len() as int)),
    }
}

#[via_fn]
proof fn spec_split_slashes_decreases(s: Seq<char>) {
    lemma_find_slash_bounds(s);
}

/// A split always yields at least one part.
proof fn lemma_split_nonempty(s: Seq<char>)
    ensures
        spec_split_slashes(s).len() >= 1,
{
    lemma_find_slash_bounds(s);
}

/// The decoded path segments of a fragment string: the parts after the first
/// `/`, each unescaped; a fragment with no parts has no segments.
pub open spec fn spec_fragment_components(s: Seq<char>) -> Seq<Seq<char>> {
    let parts = spec_split_slashes(s).drop_first();
    if parts.len() == 1 && parts[0].len() == 0 {
        Seq::empty()
    } else {
        parts.map_values(|p: Seq<char>| spec_unescape(p))
    }
}

/// A fragment string with its trailing slashes removed.
pub open spec fn spec_trim_trailing_slashes(s: Seq<char>) -> Seq<char>
    decreases s.len(),
{
    if s.len() > 0 && s.last() == '/' {
        spec_trim_trailing_slashes(s.drop_last())
    } else {
        s
    }
}

/// The normalized form of a raw fragment: trailing slashes dropped, then a
/// leading slash supplied; an absent or empty fragment normalizes to `/`.
pub open spec fn spec_normalized_fragment(raw: Option<Seq<char>>) -> Seq<char> {
    let trimmed = spec_trim_trailing_slashes(match raw {
        Some(f) => f,
        None => Seq::empty(),
    });
    if trimmed.len() == 0 {
        seq!['/']
    } else if trimmed[0] == '/' {
        trimmed
    } else {
        seq!['/'] + trimmed
    }
}

/// The first escaping offense in a fragment, scanning left to right: a `~`
/// at the very end alone, or a `~` together with the character after it.
pub open spec fn spec_first_escape_offense(s: Seq<char>) -> Seq<char>
    decreases s.len(),
{
    if s.len() == 0 {
        Seq::empty()
    } else if s[0] == '~' && s.len() == 1 {
        seq!['~']
    } else if s[0] == '~' && s[1] != '0' && s[1] != '1' {
        seq!['~', s[1]]
    } else {
        spec_first_escape_offense(s.drop_first())
    }
}

/// Whether every `~` in a fragment is followed by `0` or `1`, as RFC 6901
/// asks.
pub open spec fn spec_escapes_ok(s: Seq<char>) -> bool {
    forall|i: int|
        0 <= i < s.len() && #[trigger] s[i] == '~' ==> i + 1 < s.len() && (s[i + 1] == '0' || s[i
            + 1] == '1')
}

/// The canonical URL string of an address: the document part, `#`, and the
/// canonical fragment string.
pub open spec fn spec_url_string(a: AddressModel) -> Seq<char> {
    a.base + seq!['#'] + spec_fragment_string(a.fragment)
}

/// The canonical fragment string of a list of decoded segments: `/` alone
/// for no segments, else `/` before each escaped segment.
pub open spec fn spec_fragment_string(components: Seq<Seq<char>>) -> Seq<char>
    decreases components.len(),
{
    if components.len() == 0 {
        seq!['/']
    } else {
        spec_fragment_string_parts(components)
    }
}

/// `/` before each escaped segment, concatenated.
pub open spec fn spec_fragment_string_parts(components: Seq<Seq<char>>) -> Seq<char>
    decreases components.len(),
{
    if components.len() == 0 {
        Seq::empty()
    } else {
        seq!['/'] + spec_escape(components[0]) + spec_fragment_string_parts(
            components.drop_first(),
        )
    }
}

/// Unescape one escaped path segment.
fn unescape_chars(s: &Vec<char>) -> (r: Vec<char>)
    ensures
        r@ == spec_unescape(s@),
{
    proof {
        assert(s@.subrange(0, s@.len() as int) =~= s@);
        assert(Seq::<char>::empty() + spec_unescape(s@) =~= spec_unescape(s@));
    }
    let mut out: Vec<char> = Vec::new();
    let mut i: usize = 0;
    while i < s.len()
        invariant
            i <= s.len(),
            out@ + spec_unescape(s@.subrange(i as int, s@.len() as int)) == spec_unescape(s@),
        decreases s.len() - i,
    {
        let ghost rest = s@.subrange(i as int, s@.len() as int);
        if s[i] == '~' && i + 1 < s.len() && (s[i + 1] == '0' || s[i + 1] == '1') {
            proof {
                assert(rest[0] == s@[i as int] && rest[1] == s@[i + 1]);
                assert(rest.skip(2) =~= s@.subrange(i + 2, s@.len() as int));
            }
            out.push(if s[i + 1] == '0' {
                '~'
            } else {
                '/'
            });
            i = i + 2;
        } else {
            proof {
                assert(rest[0] == s@[i as int]);
                assert(rest.drop_first() =~= s@.subrange(i + 1, s@.len() as int));
            }
            out.push(s[i]);
            i = i + 1;
        }
        proof {
            assert(out@ + spec_unescape(s@.subrange(i as int, s@.len() as int)) =~= spec_unescape(
                s@,
            ));
        }
    }
    proof {
        assert(s@.subrange(s@.len() as int, s@.len() as int) =~= Seq::<char>::empty());
        assert(out@ =~= spec_unescape(s@));
    }
    out
}

/// Escape one decoded path segment.
fn escape_chars(s: &Vec<char>) -> (r: Vec<char>)
    ensures
        r@ == spec_escape(s@),
{
    proof {
        assert(s@.subrange(0, s@.len() as int) =~= s@);
        assert(Seq::<char>::empty() + spec_escape(s@) =~= spec_escape(s@));
    }
    let mut out: Vec<char> = Vec::new();
    let mut i: usize = 0;
    while i < s.len()
        invariant
            i <= s.len(),
            out@ + spec_escape(s@.subrange(i as int, s@.len() as int)) == spec_escape(s@),
        decreases s.len() - i,
    {
        let ghost rest = s@.subrange(i as int, s@.len() as int);
        proof {
            assert(rest[0] == s@[i as int]);
            assert(rest.drop_first() =~= s@.subrange(i + 1, s@.len() as int));
        }
        if s[i] == '~' {
            out.push('~');
            out.push('0');
        } else if s[i] == '/' {
            out.push('~');
            out.push('1');
        } else {
            out.push(s[i]);
        }
        i = i + 1;
        proof {
            assert(out@ + spec_escape(s@.subrange(i as int, s@.len() as int)) =~= spec_escape(s@));
        }
    }
    proof {
        assert(s@.subrange(s@.len() as int, s@.len() as int) =~= Seq::<char>::empty());
        assert(out@ =~= spec_escape(s@));
    }
    out
}

/// Split a string on `/`, keeping empty parts.
fn split_slashes(s: &Vec<char>, from: usize) -> (r: Vec<Vec<char>>)
    requires
        from <= s@.len(),
    ensures
        r@.map_values(|p: Vec<char>| p@) == spec_split_slashes(
            s@.subrange(from as int, s@.len() as int),
        ),
    decreases s@.len() - from,
{
    let ghost rest = s@.subrange(from as int, s@.len() as int);
    let mut j: usize = from;
    while j < s.len() && s[j] != '/'
        invariant
            from <= j <= s@.len(),
            forall|k: int| from <= k < j ==> s@[k] != '/',
        decreases s.len() - j,
    {
        j = j + 1;
    }
    proof {
        lemma_find_slash_prefix(rest, j - from);
    }
    let mut part: Vec<char> = Vec::new();
    let mut k: usize = from;
    while k < j
        invariant
            from <= k <= j <= s@.len(),
            part@ == s@.subrange(from as int, k as int),
        decreases j - k,
    {
        part.push(s[k]);
        k = k + 1;
        proof {
            assert(part@ =~= s@.subrange(from as int, k as int));
        }
    }
    if j == s.len() {
        proof {
            assert(spec_find_slash(rest) is None);
            assert(part@ =~= rest);
        }
        let mut out: Vec<Vec<char>> = Vec::new();
        out.push(part);
        proof {
            assert(out@.map_values(|p: Vec<char>| p@) =~= spec_split_slashes(rest));
        }
        out
    } else {
        proof {
            assert(spec_find_slash(rest) == Some(j - from));
            assert(part@ =~= rest.subrange(0, j - from));
            assert(s@.subrange(j + 1, s@.len() as int) =~= rest.subrange(
                j - from + 1,
                rest.len() as int,
            ));
        }
        let mut out = split_slashes(s, j + 1);
        out.insert(0, part);
        proof {
            assert(out@.map_values(|p: Vec<char>| p@) =~= spec_split_slashes(rest));
        }
        out
    }
}

/// The decoded path segments a character buffer splits into.
fn fragment_components(cs: &Vec<char>) -> (r: Vec<String>)
    ensures
        r@.map_values(|s: String| s@) == spec_fragment_components(cs@),
{
    proof {
        assert(cs@.subrange(0, cs@.len() as int) =~= cs@);
    }
    let parts = split_slashes(cs, 0);
    let ghost pm = parts@.map_values(|p: Vec<char>| p@);
    proof {
        lemma_split_nonempty(cs@);
        assert(parts@.len() >= 1);
    }
    if parts.len() == 2 && parts[1].len() == 0 {
        proof {
            assert(pm.drop_first().len() == 1 && pm.drop_first()[0].len() == 0);
        }
        return vec![];
    }
    let mut out: Vec<String> = Vec::new();
    let mut i: usize = 1;
    while i < parts.len()
        invariant
            1 <= i <= parts@.len(),
            pm == parts@.map_values(|p: Vec<char>| p@),
            pm == spec_split_slashes(cs@),
            out@.len() == i - 1,
            forall|j: int| 0 <= j < i - 1 ==> (#[trigger] out@[j])@ == spec_unescape(pm[j + 1]),
        decreases parts.len() - i,
    {
        let ue = unescape_chars(&parts[i]);
        out.push(chars_to_string(&ue));
        i = i + 1;
    }
    proof {
        if pm.drop_first().len() == 1 && pm.drop_first()[0].len() == 0 {
            assert(parts@.len() == 2 && parts@[1]@.len() == 0);
        } else {
            assert(out@.map_values(|s: String| s@) =~= pm.drop_first().map_values(
                |p: Seq<char>| spec_unescape(p),
            ));
        }
    }
    out
}

/// The decoded path segments of a fragment string: everything after the
/// first `/`, unescaped per RFC 6901.
pub fn extract_fragment_components_from_fragment_string(fragment_string: &str) -> (r: Vec<String>)
    ensures
        r@.map_values(|s: String| s@) == spec_fragment_components(fragment_string@),
{
    let cs = str_to_chars(fragment_string);
    fragment_components(&cs)
}

/// The model of a canonical address: the document URL (without fragment) and
/// the decoded fragment segments.
pub struct AddressModel {
    pub base: Seq<char>,
    pub fragment: Seq<Seq<char>>,
}

/// A canonical address: an absolute URL split into the document part and the
/// decoded JSON-pointer segments of its fragment.
#[derive(Debug)]
pub struct Address {
    /// The absolute URL of the document, without any fragment.
    pub base: String,
    /// The decoded fragment segments; the canonical fragment string is `/`
    /// followed by the escaped segments joined with `/`.
    pub fragment: Vec<String>,
}

impl View for Address {
    type V = AddressModel;

    open spec fn view(&self) -> AddressModel {
        AddressModel { base: self.base@, fragment: self.fragment@.map_values(|s: String| s@) }
    }
}

impl crate::cache::CacheKey for Address {
    open spec fn key_eq(&self, other: &Self) -> bool {
        self@ == other@
    }

    fn key_equal(&self, other: &Self) -> (r: bool) {
        if !crate::text::str_eq(self.base.as_str(), other.base.as_str()) {
            proof {
                assert(self@.base != other@.base);
                assert(self@ != other@);
            }
            return false;
        }
        if self.fragment.len() != other.fragment.len() {
            proof {
                assert(self@.fragment.len() == self.fragment@.len());
                assert(other@.fragment.len() == other.fragment@.len());
                assert(self@.fragment != other@.fragment);
                assert(self@ != other@);
            }
            return false;
        }
        let mut i: usize = 0;
        while i < self.fragment.len()
            invariant
                i <= self.fragment@.len(),
                self.fragment@.len() == other.fragment@.len(),
                self@.base == other@.base,
                forall|j: int| 0 <= j < i ==> self@.fragment[j] == other@.fragment[j],
            decreases self.fragment.len() - i,
        {
            if !crate::text::str_eq(self.fragment[i].as_str(), other.fragment[i].as_str()) {
                proof {
                    assert(self@.fragment[i as int] != other@.fragment[i as int]);
                    assert(self@.fragment != other@.fragment);
                    assert(self@ != other@);
                }
                return false;
            }
            i = i + 1;
        }
        proof {
            assert(self@.fragment =~= other@.fragment);
        }
        true
    }
}

impl Address {
    /// An exact copy of this address.
    pub fn duplicate(&self) -> (r: Address)
        ensures
            r@ == self@,
    {
        let base = self.base.clone();
        let mut fragment: Vec<String> = Vec::new();
        let mut i: usize = 0;
        while i < self.fragment.len()
            invariant
                i <= self.fragment@.len(),
                fragment@.len() == i,
                forall|j: int| 0 <= j < i ==> #[trigger] fragment@[j]@ == self.fragment@[j]@,
            decreases self.fragment.len() - i,
        {
            fragment.push(self.fragment[i].clone());
            i = i + 1;
        }
        let r = Address { base, fragment };
        proof {
            assert(r@.fragment =~= self@.fragment);
        }
        r
    }

    /// The canonical URL string of this address: the document part, `#`, and
    /// the canonical fragment string.
    pub fn to_url_string(&self) -> (r: String)
        ensures
            r@ == spec_url_string(self@),
    {
        let mut cs = str_to_chars(self.base.as_str());
        cs.push('#');
        if self.fragment.len() == 0 {
            cs.push('/');
            proof {
                assert(cs@ =~= self@.base + seq!['#'] + spec_fragment_string(self@.fragment));
            }
            return chars_to_string(&cs);
        }
        let ghost fm = self@.fragment;
        proof {
            assert(cs@ =~= self@.base + seq!['#']);
            assert(fm.subrange(0, fm.len() as int) =~= fm);
            assert(fm.len() == self.fragment@.len());
        }
        let mut i: usize = 0;
        while i < self.fragment.len()
            invariant
                i <= self.fragment@.len(),
                fm == self@.fragment,
                fm.len() == self.fragment@.len(),
                cs@ + spec_fragment_string_parts(fm.subrange(i as int, fm.len() as int))
                    == self@.base + seq!['#'] + spec_fragment_string_parts(fm),
            decreases self.fragment.len() - i,
        {
            proof {
                assert(fm.subrange(i as int, fm.len() as int)[0] == fm[i as int]);
                assert(fm.subrange(i as int, fm.len() as int).drop_first() =~= fm.subrange(
                    i + 1,
                    fm.len() as int,
                ));
            }
            cs.push('/');
            let sc = str_to_chars(self.fragment[i].as_str());
            let mut esc = escape_chars(&sc);
            cs.append(&mut esc);
            i = i + 1;
            proof {
                assert(cs@ + spec_fragment_string_parts(fm.subrange(i as int, fm.len() as int))
                    =~= self@.base + seq!['#'] + spec_fragment_string_parts(fm));
            }
        }
        proof {
            assert(fm.subrange(fm.len() as int, fm.len() as int) =~= Seq::<Seq<char>>::empty());
            assert(cs@ =~= self@.base + seq!['#'] + spec_fragment_string(fm));
        }
        chars_to_string(&cs)
    }
}

/// A parsed URL, reduced to plain values: the serialization without the
/// fragment, and the fragment if one was present.
pub struct UrlParts {
    pub without_fragment: String,
    pub fragment: Option<String>,
}

/// The model of a `UrlParts`.
pub open spec fn spec_url_parts(p: UrlParts) -> (Seq<char>, Option<Seq<char>>) {
    (
        p.without_fragment@,
        match p.fragment {
            Some(f) => Some(f@),
            None => None,
        },
    )
}

/// What `url::Url::parse` makes of a string, when it parses it as an
/// absolute URL without syntax violations: the URL without its fragment, and
/// the fragment if one was present. The result depends on the string alone.
pub uninterp spec fn parsed_url_of(s: Seq<char>) -> Option<(Seq<char>, Option<Seq<char>>)>;

/// What `url::Url::join` makes of an absolute base and a reference, when the
/// reference resolves against the base: fragment-only references rewrite only
/// the fragment, relative paths resolve against the base's path, absolute
/// paths and full URLs replace it. The result depends on the two strings
/// alone.
pub uninterp spec fn joined_url_of(base: Seq<char>, reference: Seq<char>) -> Option<
    (Seq<char>, Option<Seq<char>>),
>;

/// Relies on `url::Url::parse` (through `Url::options` with a
/// syntax-violation callback, as the url crate documents): parses an
/// absolute URL, rejecting inputs that parse only by correcting a violation.
#[verifier::external_body]
fn parse_url_raw(s: &str) -> (r: Result<UrlParts, UrlError>)
    ensures
        r is Ok <==> parsed_url_of(s@) is Some,
        r matches Ok(p) ==> parsed_url_of(s@) == Some(spec_url_parts(p)),
        r matches Err(e) ==> e is ParseError || e is SyntaxViolation,
{
    let violations = std::cell::RefCell::new(Vec::new());
    let cb = |v| violations.borrow_mut().push(v);
    match url::Url::options().syntax_violation_callback(Some(&cb)).parse(s) {
        Err(e) => Err(UrlError::ParseError(format!("{}", e))),
        Ok(mut u) => match violations.borrow().first() {
            Some(v) => Err(UrlError::SyntaxViolation(format!("{}", v))),
            None => {
                let fragment = u.fragment().map(str::to_string);
                u.set_fragment(None);
                Ok(UrlParts { without_fragment: u.as_str().to_string(), fragment })
            },
        },
    }
}

/// Relies on `url::Url::parse` and `url::Url::join`: parses the absolute
/// base — always a string an earlier parse produced — and resolves the
/// reference against it by the standard reference-resolution rules.
#[verifier::external_body]
fn join_url_raw(base: &str, reference: &str) -> (r: Result<UrlParts, UrlError>)
    ensures
        r is Ok <==> joined_url_of(base@, reference@) is Some,
        r matches Ok(p) ==> joined_url_of(base@, reference@) == Some(spec_url_parts(p)),
        r matches Err(e) ==> e is ParseError,
{
    match url::Url::parse(base).and_then(|u| u.join(reference)) {
        Err(e) => Err(UrlError::ParseError(format!("{}", e))),
        Ok(mut u) => {
            let fragment = u.fragment().map(str::to_string);
            u.set_fragment(None);
            Ok(UrlParts { without_fragment: u.as_str().to_string(), fragment })
        },
    }
}

/// The canonical address built from parsed URL parts: the fragment is
/// normalized, checked against the RFC 6901 escaping rules, and split into
/// decoded segments.
fn canonicalize_parts(parts: UrlParts) -> (r: Result<Address, UrlError>)
    ensures
        ({
            let nf = spec_normalized_fragment(spec_url_parts(parts).1);
            match r {
                Ok(a) => spec_escapes_ok(nf) && a@.base == spec_url_parts(parts).0 && a@.fragment
                    == spec_fragment_components(nf),
                Err(e) => !spec_escapes_ok(nf) && (e matches UrlError::JsonFragmentError(m) && m@
                    == spec_first_escape_offense(nf)),
            }
        }),
{
    let mut fc: Vec<char> = match &parts.fragment {
        Some(f) => str_to_chars(f.as_str()),
        None => Vec::new(),
    };
    while fc.len() > 0 && fc[fc.len() - 1] == '/'
        invariant
            spec_trim_trailing_slashes(fc@) == spec_normalized_and_trimmed(parts),
        decreases fc.len(),
    {
        let _ = fc.pop();
    }
    proof {
        assert(spec_trim_trailing_slashes(fc@) == fc@);
    }
    let ghost trimmed = fc@;
    if fc.len() == 0 {
        fc.push('/');
        proof {
            assert(fc@ =~= seq!['/']);
        }
    } else if fc[0] != '/' {
        fc.insert(0, '/');
        proof {
            assert(fc@ =~= seq!['/'] + trimmed);
        }
    }
    proof {
        assert(fc@ == spec_normalized_fragment(spec_url_parts(parts).1));
    }
    proof {
        assert(fc@.subrange(0, fc@.len() as int) =~= fc@);
    }
    let mut i: usize = 0;
    while i < fc.len()
        invariant
            i <= fc@.len(),
            fc@ == spec_normalized_fragment(spec_url_parts(parts).1),
            forall|j: int|
                0 <= j < i && #[trigger] fc@[j] == '~' ==> j + 1 < fc@.len() && (fc@[j + 1] == '0'
                    || fc@[j + 1] == '1'),
            spec_first_escape_offense(fc@) == spec_first_escape_offense(
                fc@.subrange(i as int, fc@.len() as int),
            ),
        decreases fc.len() - i,
    {
        let ghost rest = fc@.subrange(i as int, fc@.len() as int);
        proof {
            assert(rest[0] == fc@[i as int]);
            if rest.len() >= 2 {
                assert(rest[1] == fc@[i + 1]);
            }
            assert(rest.drop_first() =~= fc@.subrange(i + 1, fc@.len() as int));
        }
        if fc[i] == '~' {
            if i + 1 >= fc.len() {
                let mut mc: Vec<char> = Vec::new();
                mc.push('~');
                proof {
                    assert(mc@ =~= spec_first_escape_offense(rest));
                }
                return Err(UrlError::JsonFragmentError(chars_to_string(&mc)));
            }
            let next = fc[i + 1];
            if next != '0' && next != '1' {
                let mut mc: Vec<char> = Vec::new();
                mc.push('~');
                mc.push(next);
                proof {
                    assert(mc@ =~= spec_first_escape_offense(rest));
                }
                return Err(UrlError::JsonFragmentError(chars_to_string(&mc)));
            }
        }
        i = i + 1;
    }
    let fragment = fragment_components(&fc);
    Ok(Address { base: parts.without_fragment, fragment })
}

/// The trimmed raw fragment of parsed URL parts.
pub open spec fn spec_normalized_and_trimmed(parts: UrlParts) -> Seq<char> {
    spec_trim_trailing_slashes(match spec_url_parts(parts).1 {
        Some(f) => f,
        None => Seq::empty(),
    })
}

/// Parse a URL string into its canonical address: the fragment is always
/// present, begins with `/`, loses its trailing slashes, and must obey the
/// RFC 6901 escaping rules.
pub fn parse_and_normalize_url(url: &str) -> (r: Result<Address, UrlError>)
    ensures
        match r {
            Ok(a) => {
                &&& parsed_url_of(url@) matches Some(pu)
                &&& a@.base == pu.0
                &&& spec_escapes_ok(spec_normalized_fragment(pu.1))
                &&& a@.fragment == spec_fragment_components(spec_normalized_fragment(pu.1))
            },
            Err(e) => {
                ||| (parsed_url_of(url@) is None && (e is ParseError || e is SyntaxViolation))
                ||| {
                    &&& parsed_url_of(url@) matches Some(pu)
                    &&& !spec_escapes_ok(spec_normalized_fragment(pu.1))
                    &&& (e matches UrlError::JsonFragmentError(m) && m@
                        == spec_first_escape_offense(spec_normalized_fragment(pu.1)))
                }
            },
        },
{
    match parse_url_raw(url) {
        Err(e) => Err(e),
        Ok(parts) => canonicalize_parts(parts),
    }
}

/// The address every fragment variant of a document shares: the same
/// document URL with the fragment reduced to `/`.
pub fn normalize_url_for_cache(address: &Address) -> (r: Address)
    ensures
        r@.base == address@.base,
        r@.fragment == Seq::<Seq<char>>::empty(),
{
    let r = Address { base: address.base.clone(), fragment: Vec::new() };
    proof {
        assert(r@.fragment =~= Seq::<Seq<char>>::empty());
    }
    r
}

/// The decoded fragment segments of an address.
pub fn extract_fragment_components(address: &Address) -> (r: Vec<String>)
    ensures
        r@.map_values(|s: String| s@) == address@.fragment,
{
    let mut out: Vec<String> = Vec::new();
    let mut i: usize = 0;
    while i < address.fragment.len()
        invariant
            i <= address.fragment@.len(),
            out@.len() == i,
            forall|j: int| 0 <= j < i ==> #[trigger] out@[j]@ == address.fragment@[j]@,
        decreases address.fragment.len() - i,
    {
        out.push(address.fragment[i].clone());
        i = i + 1;
    }
    proof {
        assert(out@.map_values(|s: String| s@) =~= address@.fragment);
    }
    out
}

/// The address reached by extending an address's fragment with further
/// decoded segments.
pub fn append_fragment_components(address: &Address, components: &Vec<String>) -> (r: Address)
    ensures
        r@.base == address@.base,
        r@.fragment == address@.fragment + components@.map_values(|s: String| s@),
{
    let mut fragment = extract_fragment_components(address);
    let ghost base_len = fragment@.len();
    proof {
        assert(fragment@.map_values(|s: String| s@).len() == fragment@.len());
        assert(base_len == address.fragment@.len());
        assert forall|j: int| 0 <= j < base_len implies (#[trigger] fragment@[j])@
            == address.fragment@[j]@ by {
            assert(fragment@.map_values(|s: String| s@)[j] == address@.fragment[j]);
        }
    }
    let mut i: usize = 0;
    while i < components.len()
        invariant
            i <= components@.len(),
            base_len == address.fragment@.len(),
            fragment@.len() == base_len + i,
            forall|j: int|
                0 <= j < base_len ==> (#[trigger] fragment@[j])@ == address.fragment@[j]@,
            forall|j: int|
                0 <= j < i ==> (#[trigger] fragment@[base_len + j])@ == components@[j]@,
        decreases components.len() - i,
    {
        fragment.push(components[i].clone());
        i = i + 1;
    }
    let r = Address { base: address.base.clone(), fragment };
    proof {
        let fmap = fragment@.map_values(|s: String| s@);
        let rhs = address@.fragment + components@.map_values(|s: String| s@);
        assert(fmap.len() == rhs.len());
        assert forall|j: int| 0 <= j < fmap.len() implies fmap[j] == rhs[j] by {
            if j < base_len {
                assert(fragment@[j]@ == address.fragment@[j]@);
                assert(address@.fragment[j] == address.fragment@[j]@);
            } else {
                assert(fragment@[base_len + (j - base_len)]@ == components@[j - base_len]@);
                assert(components@.map_values(|s: String| s@)[j - base_len] == components@[j
                    - base_len]@);
            }
        }
        assert(r@.fragment =~= rhs);
    }
    r
}

impl Address {
    /// The address a reference resolves to against this one: fragment-only
    /// references rewrite only the fragment, relative paths resolve against
    /// the document's path, absolute paths and full URLs replace the base
    /// entirely; the fragment is then canonicalized as in
    /// [`parse_and_normalize_url`].
    pub fn join(&self, reference: &str) -> (r: Result<Address, UrlError>)
        ensures
            match r {
                Ok(a) => {
                    &&& joined_url_of(self@.base, reference@) matches Some(pu)
                    &&& a@.base == pu.0
                    &&& spec_escapes_ok(spec_normalized_fragment(pu.1))
                    &&& a@.fragment == spec_fragment_components(spec_normalized_fragment(pu.1))
                },
                Err(e) => {
                    ||| (joined_url_of(self@.base, reference@) is None && e is ParseError)
                    ||| {
                        &&& joined_url_of(self@.base, reference@) matches Some(pu)
                        &&& !spec_escapes_ok(spec_normalized_fragment(pu.1))
                        &&& (e matches UrlError::JsonFragmentError(m) && m@
                            == spec_first_escape_offense(spec_normalized_fragment(pu.1)))
                    }
                },
            },
    {
        match join_url_raw(self.base.as_str(), reference) {
            Err(e) => Err(e),
            Ok(parts) => canonicalize_parts(parts),
        }
    }
}

/// An address with no fragment canonicalizes to one whose fragment is
/// exactly `/`: the normalized fragment string of an absent fragment is `/`,
/// it has no decoded segments, and an address with no segments renders its
/// fragment as `/` again.
pub proof fn lemma_absent_fragment_is_root()
    ensures
        spec_normalized_fragment(None) == seq!['/'],
        spec_fragment_components(seq!['/']) == Seq::<Seq<char>>::empty(),
        spec_fragment_string(Seq::<Seq<char>>::empty()) == seq!['/'],
{
    let root = seq!['/'];
    assert(spec_find_slash(root) == Some(0int));
    let rest = root.subrange(1, 1);
    assert(rest =~= Seq::<char>::empty());
    assert(spec_find_slash(rest) is None);
    assert(spec_split_slashes(rest) =~= seq![rest]);
    assert(spec_split_slashes(root) =~= seq![root.subrange(0, 0), rest]);
    assert(spec_split_slashes(root).drop_first() =~= seq![rest]);
}

/// A fragment with a trailing slash collapses to the form without it.
pub proof fn lemma_trailing_slash_collapses(f: Seq<char>)
    ensures
        spec_normalized_fragment(Some(f.push('/'))) == spec_normalized_fragment(Some(f)),
{
    assert(f.push('/').last() == '/');
    assert(f.push('/').drop_last() =~= f);
}

/// If the first `j` characters of `s` are not `/`, the first slash of `s` is
/// at `j` (if `s[j]` is one) or absent (if `s` ends at `j`).
proof fn lemma_find_slash_prefix(s: Seq<char>, j: int)
    requires
        0 <= j <= s.len(),
        forall|k: int| 0 <= k < j ==> s[k] != '/',
    ensures
        j < s.len() && s[j] == '/' ==> spec_find_slash(s) == Some(j),
        j == s.len() ==> spec_find_slash(s) is None,
    decreases j,
{
    if j > 0 {
        lemma_find_slash_prefix(s.drop_first(), j - 1);
        assert(forall|k: int| 0 <= k < j - 1 ==> s.drop_first()[k] != '/');
        if j < s.len() && s[j] == '/' {
            assert(s.drop_first()[j - 1] == s[j]);
        }
    }
}

} // verus!
