//! Image names: `registry/repository:tag` and `registry/repository@digest`.
//!
//! The registry is a host name, optionally followed by `:` and a port. The
//! repository is one or more components separated by `/`. A component, and a
//! tag, is a non-empty run of lowercase letters, digits, `.`, `_` and `-`.

use crate::digest::{is_digest_text, lemma_digest_text, Algorithm, Digest, DigestView};
use crate::error::Error;
use crate::text::{
    all_in, chars_of, check_all, find_any, in_class, index_of, index_of_any, lemma_index_of_any,
    lemma_index_of_any_is, slice_of, string_from, CharClass,
};
use vstd::prelude::*;

verus! {

/// A host name: letters, digits, `.` and `-`, at least one.
pub open spec fn valid_host(s: Seq<char>) -> bool {
    s.len() > 0 && all_in(s, CharClass::Host)
}

/// A port: one to five decimal digits.
pub open spec fn valid_port(s: Seq<char>) -> bool {
    1 <= s.len() <= 5 && all_in(s, CharClass::Digit)
}

/// A host, or a host, `:` and a port.
pub open spec fn valid_registry(s: Seq<char>) -> bool {
    let k = index_of(s, ':', 0);
    if k == s.len() {
        valid_host(s)
    } else {
        valid_host(s.subrange(0, k)) && valid_port(s.subrange(k + 1, s.len() as int))
    }
}

/// One component of a repository path, or a tag.
pub open spec fn valid_component(s: Seq<char>) -> bool {
    s.len() > 0 && all_in(s, CharClass::Component)
}

/// Components separated by single `/`: no component is empty, so the text
/// neither begins nor ends with `/` and holds no `//`.
pub open spec fn valid_repository(s: Seq<char>) -> bool {
    &&& s.len() > 0
    &&& all_in(s, CharClass::Path)
    &&& s[0] != '/'
    &&& s[s.len() - 1] != '/'
    &&& forall|i: int| 0 <= i < s.len() - 1 ==> !(#[trigger] s[i] == '/' && s[i + 1] == '/')
}

/// What a reference is.
pub enum ReferenceView {
    Tag(Seq<char>),
    Digest(DigestView),
}

/// What an image name is.
pub struct ImageNameView {
    pub registry: Seq<char>,
    pub repository: Seq<char>,
    pub reference: ReferenceView,
}

impl ReferenceView {
    /// A tag is one component; a digest is well formed.
    pub open spec fn wf(self) -> bool {
        match self {
            ReferenceView::Tag(t) => valid_component(t),
            ReferenceView::Digest(d) => d.wf(),
        }
    }

    /// `:tag` or `@digest`.
    pub open spec fn suffix(self) -> Seq<char> {
        match self {
            ReferenceView::Tag(t) => seq![':'] + t,
            ReferenceView::Digest(d) => seq!['@'] + d.text(),
        }
    }

    /// The tag, or the text form of the digest.
    pub open spec fn text(self) -> Seq<char> {
        match self {
            ReferenceView::Tag(t) => t,
            ReferenceView::Digest(d) => d.text(),
        }
    }
}

impl ImageNameView {
    /// Every part obeys its grammar.
    pub open spec fn wf(self) -> bool {
        &&& valid_registry(self.registry)
        &&& valid_repository(self.repository)
        &&& self.reference.wf()
    }

    /// The canonical text: `registry/repository:tag` or
    /// `registry/repository@digest`.
    pub open spec fn text(self) -> Seq<char> {
        self.registry + seq!['/'] + self.repository + self.reference.suffix()
    }
}

/// The name that `s` spells, if it spells one: the registry ends at the first
/// `/`, the repository at the first `:` or `@` behind it.
pub open spec fn parse_spec(s: Seq<char>) -> Option<ImageNameView> {
    let i = index_of(s, '/', 0);
    let j = index_of_any(s, ':', '@', i + 1);
    if i >= s.len() || j >= s.len() {
        None
    } else {
        let registry = s.subrange(0, i);
        let repository = s.subrange(i + 1, j);
        let rest = s.subrange(j + 1, s.len() as int);
        if !valid_registry(registry) || !valid_repository(repository) {
            None
        } else if s[j] == ':' {
            if valid_component(rest) {
                Some(ImageNameView { registry, repository, reference: ReferenceView::Tag(rest) })
            } else {
                None
            }
        } else {
            if is_digest_text(rest) {
                Some(
                    ImageNameView {
                        registry,
                        repository,
                        reference: ReferenceView::Digest(
                            DigestView { algorithm: Algorithm::Sha256, hex: rest.skip(7) },
                        ),
                    },
                )
            } else {
                None
            }
        }
    }
}

/// A registry holds host characters and `:` only, hence no `/`.
proof fn lemma_registry_chars(s: Seq<char>)
    requires
        valid_registry(s),
    ensures
        s.len() > 0,
        forall|i: int|
            0 <= i < s.len() ==> in_class(CharClass::Host, #[trigger] s[i]) || s[i] == ':',
        forall|i: int| 0 <= i < s.len() ==> s[i] != '/',
{
    let k = index_of(s, ':', 0);
    lemma_index_of_any(s, ':', ':', 0);
    if k < s.len() {
        let host = s.subrange(0, k);
        let port = s.subrange(k + 1, s.len() as int);
        assert forall|i: int| 0 <= i < s.len() implies in_class(CharClass::Host, #[trigger] s[i])
            || s[i] == ':' by {
            if i < k {
                assert(in_class(CharClass::Host, host[i]));
            } else if i > k {
                assert(in_class(CharClass::Digit, port[i - k - 1]));
            }
        }
    } else {
        assert forall|i: int| 0 <= i < s.len() implies in_class(CharClass::Host, #[trigger] s[i])
            || s[i] == ':' by {
            assert(in_class(CharClass::Host, s[i]));
        }
    }
}

/// A repository holds neither `:` nor `@`.
proof fn lemma_repository_chars(s: Seq<char>)
    requires
        valid_repository(s),
    ensures
        forall|i: int| 0 <= i < s.len() ==> s[i] != ':' && s[i] != '@',
{
    assert forall|i: int| 0 <= i < s.len() implies s[i] != ':' && s[i] != '@' by {
        assert(in_class(CharClass::Path, s[i]));
    }
}

/// The characters that the canonical text of a name is made of.
pub open spec fn is_name_char(c: char) -> bool {
    in_class(CharClass::Host, c) || in_class(CharClass::Path, c) || c == ':' || c == '@'
}

/// The canonical text of a well-formed name holds name characters only.
pub proof fn lemma_text_alphabet(n: ImageNameView)
    requires
        n.wf(),
    ensures
        forall|i: int| 0 <= i < n.text().len() ==> is_name_char(#[trigger] n.text()[i]),
{
    let s = n.text();
    let r = n.registry.len() as int;
    let p = n.repository.len() as int;
    lemma_registry_chars(n.registry);
    assert forall|i: int| 0 <= i < s.len() implies is_name_char(#[trigger] s[i]) by {
        if i < r {
            assert(s[i] == n.registry[i]);
        } else if i == r {
        } else if i < r + 1 + p {
            assert(s[i] == n.repository[i - r - 1]);
            assert(in_class(CharClass::Path, n.repository[i - r - 1]));
        } else if i == r + 1 + p {
            assert(s[i] == n.reference.suffix()[0]);
        } else {
            let k = i - r - 1 - p;
            assert(s[i] == n.reference.suffix()[k]);
            match n.reference {
                ReferenceView::Tag(t) => {
                    assert(in_class(CharClass::Component, t[k - 1]));
                },
                ReferenceView::Digest(d) => {
                    if k - 1 >= 7 {
                        assert(d.text()[k - 1] == d.hex[k - 1 - 7]);
                        assert(in_class(CharClass::Hex, d.hex[k - 1 - 7]));
                    }
                },
            }
        }
    }
}

/// What `parse_spec` accepts is well formed, and its canonical text is the
/// text that was parsed.
pub proof fn lemma_parse_sound(s: Seq<char>)
    ensures
        parse_spec(s) matches Some(n) ==> n.wf() && n.text() == s,
{
    if let Some(n) = parse_spec(s) {
        let i = index_of(s, '/', 0);
        let j = index_of_any(s, ':', '@', i + 1);
        lemma_index_of_any(s, '/', '/', 0);
        lemma_index_of_any(s, ':', '@', i + 1);
        let rest = s.subrange(j + 1, s.len() as int);
        if s[j] == ':' {
            assert(n.text() =~= s);
        } else {
            let d = DigestView { algorithm: Algorithm::Sha256, hex: rest.skip(7) };
            assert(d.text() =~= rest);
            assert(n.text() =~= s);
        }
    }
}

/// The canonical text of a well-formed name parses back to that name.
pub proof fn lemma_parse_complete(n: ImageNameView)
    requires
        n.wf(),
    ensures
        parse_spec(n.text()) == Some(n),
{
    let s = n.text();
    let r = n.registry.len() as int;
    let p = n.repository.len() as int;
    lemma_registry_chars(n.registry);
    lemma_repository_chars(n.repository);
    assert(s[r] == '/');
    assert forall|i: int| 0 <= i < r implies s[i] != '/' by {
        assert(s[i] == n.registry[i]);
    }
    lemma_index_of_any_is(s, '/', '/', 0, r);
    let j = r + 1 + p;
    assert(s[j] == n.reference.suffix()[0]);
    assert forall|i: int| r + 1 <= i < j implies s[i] != ':' && s[i] != '@' by {
        assert(s[i] == n.repository[i - r - 1]);
    }
    lemma_index_of_any_is(s, ':', '@', r + 1, j);
    assert(s.subrange(0, r) =~= n.registry);
    assert(s.subrange(r + 1, j) =~= n.repository);
    let rest = s.subrange(j + 1, s.len() as int);
    match n.reference {
        ReferenceView::Tag(t) => {
            assert(rest =~= t);
        },
        ReferenceView::Digest(d) => {
            assert(rest =~= d.text());
            lemma_digest_text(rest);
            assert(rest.skip(7) =~= d.hex);
        },
    }
}

/// Two well-formed names with the same canonical text are the same name.
pub proof fn lemma_text_injective(a: ImageNameView, b: ImageNameView)
    requires
        a.wf(),
        b.wf(),
        a.text() == b.text(),
    ensures
        a == b,
{
    lemma_parse_complete(a);
    lemma_parse_complete(b);
}

/// A text is accepted exactly if it is the canonical text of a well-formed
/// name, and then that name is the result.
pub proof fn lemma_parse_characterized(s: Seq<char>)
    ensures
        parse_spec(s) is Some <==> exists|n: ImageNameView| n.wf() && #[trigger] n.text() == s,
        forall|n: ImageNameView| n.wf() && #[trigger] n.text() == s ==> parse_spec(s) == Some(n),
{
    lemma_parse_sound(s);
    assert forall|n: ImageNameView| n.wf() && #[trigger] n.text() == s implies parse_spec(s)
        == Some(n) by {
        lemma_parse_complete(n);
    }
}

/// A tag, or the digest of a manifest.
#[derive(Debug, PartialEq, Eq, Hash)]
pub enum Reference {
    Tag(String),
    Digest(Digest),
}

impl View for Reference {
    type V = ReferenceView;

    open spec fn view(&self) -> ReferenceView {
        match self {
            Reference::Tag(t) => ReferenceView::Tag(t@),
            Reference::Digest(d) => ReferenceView::Digest(d@),
        }
    }
}

impl Clone for Reference {
    fn clone(&self) -> (r: Self)
        ensures
            r@ == self@,
    {
        match self {
            Reference::Tag(t) => Reference::Tag(t.clone()),
            Reference::Digest(d) => Reference::Digest(d.clone()),
        }
    }
}

impl Reference {
    /// The tag, or the text form of the digest.
    pub fn to_string(&self) -> (s: String)
        ensures
            s@ == self@.text(),
    {
        match self {
            Reference::Tag(t) => t.clone(),
            Reference::Digest(d) => d.to_string(),
        }
    }

    /// Whether both are the same reference.
    pub fn equals(&self, other: &Reference) -> (b: bool)
        ensures
            b == (self@ == other@),
    {
        match (self, other) {
            (Reference::Tag(a), Reference::Tag(b)) => *a == *b,
            (Reference::Digest(a), Reference::Digest(b)) => a.equals(b),
            _ => false,
        }
    }
}

/// The name of an image in a registry. Every value of this type is well
/// formed, and none changes after it was made.
#[derive(Debug, PartialEq, Eq, Hash)]
pub struct ImageName {
    registry: String,
    repository: String,
    reference: Reference,
}

impl View for ImageName {
    type V = ImageNameView;

    closed spec fn view(&self) -> ImageNameView {
        ImageNameView {
            registry: self.registry@,
            repository: self.repository@,
            reference: self.reference@,
        }
    }
}

impl Clone for ImageName {
    fn clone(&self) -> (n: Self)
        ensures
            n@ == self@,
    {
        proof {
            use_type_invariant(self);
        }
        ImageName {
            registry: self.registry.clone(),
            repository: self.repository.clone(),
            reference: self.reference.clone(),
        }
    }
}

fn check_registry(v: &Vec<char>) -> (b: bool)
    ensures
        b == valid_registry(v@),
{
    let k = find_any(v, ':', ':', 0);
    if k == v.len() {
        v.len() > 0 && check_all(v, CharClass::Host)
    } else {
        let host = slice_of(v, 0, k);
        let port = slice_of(v, k + 1, v.len());
        host.len() > 0 && check_all(&host, CharClass::Host) && 1 <= port.len() && port.len() <= 5
            && check_all(&port, CharClass::Digit)
    }
}

fn check_component(v: &Vec<char>) -> (b: bool)
    ensures
        b == valid_component(v@),
{
    v.len() > 0 && check_all(v, CharClass::Component)
}

fn check_repository(v: &Vec<char>) -> (b: bool)
    ensures
        b == valid_repository(v@),
{
    if v.len() == 0 || !check_all(v, CharClass::Path) {
        return false;
    }
    if v[0] == '/' || v[v.len() - 1] == '/' {
        return false;
    }
    let last = v.len() - 1;
    let mut i: usize = 0;
    while i < last
        invariant
            0 <= i <= last == v@.len() - 1,
            forall|j: int| 0 <= j < i ==> !(#[trigger] v@[j] == '/' && v@[j + 1] == '/'),
        decreases last - i,
    {
        if v[i] == '/' && v[i + 1] == '/' {
            return false;
        }
        i += 1;
    }
    true
}

fn check_reference(r: &Reference) -> (b: bool)
    ensures
        b == r@.wf(),
{
    match r {
        Reference::Tag(t) => {
            let v = chars_of(t.as_str());
            check_component(&v)
        },
        Reference::Digest(d) => {
            let h = d.hex();
            true
        },
    }
}

impl ImageName {
    /// What holds of every value of this type.
    #[verifier::type_invariant]
    pub open spec fn inv(self) -> bool {
        self@.wf()
    }

    fn parse_chars(v: &Vec<char>) -> (r: Option<ImageName>)
        ensures
            r matches Some(n) ==> parse_spec(v@) == Some(n@),
            r is None ==> parse_spec(v@) is None,
    {
        let n = v.len();
        let i = find_any(v, '/', '/', 0);
        if i >= n {
            return None;
        }
        let j = find_any(v, ':', '@', i + 1);
        if j >= n {
            return None;
        }
        let registry = slice_of(v, 0, i);
        let repository = slice_of(v, i + 1, j);
        let rest = slice_of(v, j + 1, n);
        if !check_registry(&registry) || !check_repository(&repository) {
            return None;
        }
        let reference = if v[j] == ':' {
            if !check_component(&rest) {
                return None;
            }
            Reference::Tag(string_from(&rest))
        } else {
            match Digest::parse_chars(&rest) {
                Some(d) => {
                    proof {
                        lemma_digest_text(rest@);
                        assert(d@.text().skip(7) =~= d@.hex);
                    }
                    Reference::Digest(d)
                },
                None => {
                    return None;
                },
            }
        };
        proof {
            lemma_parse_sound(v@);
        }
        Some(
            ImageName {
                registry: string_from(&registry),
                repository: string_from(&repository),
                reference,
            },
        )
    }

    /// Reads a name from its canonical text. The text is accepted exactly if
    /// it is the canonical text of some well-formed name, and that name is
    /// then the result.
    pub fn parse(name: &str) -> (r: Result<ImageName, Error>)
        ensures
            r matches Ok(n) ==> parse_spec(name@) == Some(n@) && n@.wf() && n@.text() == name@,
            r matches Err(e) ==> e == Error::InvalidName && parse_spec(name@) is None,
            r is Err ==> forall|n: ImageNameView| n.wf() ==> #[trigger] n.text() != name@,
    {
        let v = chars_of(name);
        proof {
            lemma_parse_sound(v@);
            lemma_parse_characterized(v@);
        }
        match ImageName::parse_chars(&v) {
            Some(n) => Ok(n),
            None => Err(Error::InvalidName),
        }
    }

    /// Builds a name from its parts, which must each obey their grammar.
    pub fn new(registry: &str, repository: &str, reference: Reference) -> (r: Result<
        ImageName,
        Error,
    >)
        ensures
            r matches Ok(n) ==> n@ == (ImageNameView {
                registry: registry@,
                repository: repository@,
                reference: reference@,
            }) && n@.wf(),
            r matches Err(e) ==> e == Error::InvalidName,
            r is Ok <==> (ImageNameView {
                registry: registry@,
                repository: repository@,
                reference: reference@,
            }).wf(),
    {
        let rv = chars_of(registry);
        let pv = chars_of(repository);
        if !check_registry(&rv) || !check_repository(&pv) || !check_reference(&reference) {
            return Err(Error::InvalidName);
        }
        Ok(ImageName { registry: string_from(&rv), repository: string_from(&pv), reference })
    }

    /// The host of the registry, with its port if it has one.
    pub fn registry(&self) -> (s: &str)
        ensures
            s@ == self@.registry,
    {
        self.registry.as_str()
    }

    /// The path of the repository in the registry.
    pub fn repository(&self) -> (s: &str)
        ensures
            s@ == self@.repository,
    {
        self.repository.as_str()
    }

    /// The tag or digest.
    pub fn reference(&self) -> (r: &Reference)
        ensures
            r@ == self@.reference,
    {
        &self.reference
    }

    /// The canonical text.
    pub fn to_string(&self) -> (s: String)
        ensures
            s@ == self@.text(),
            self@.wf(),
    {
        proof {
            use_type_invariant(self);
        }
        let mut s = self.registry.clone();
        s.push('/');
        s.append(self.repository.as_str());
        match &self.reference {
            Reference::Tag(t) => {
                s.push(':');
                s.append(t.as_str());
            },
            Reference::Digest(d) => {
                s.push('@');
                let t = d.to_string();
                s.append(t.as_str());
            },
        }
        assert(s@ =~= self@.text());
        s
    }

    /// Whether both are the same name.
    pub fn equals(&self, other: &ImageName) -> (b: bool)
        ensures
            b == (self@ == other@),
    {
        self.registry == other.registry && self.repository == other.repository
            && self.reference.equals(&other.reference)
    }
}

} // verus!
