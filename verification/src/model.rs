//! The catalog data model: the document root, string entries, localizations
//! with their three shapes (fixed, plural variant, device variant), the
//! translation-state marker, the error type of the parser, and the
//! diagnostic events the resolver collects.

use vstd::prelude::*;

verus! {

/// Relies on str's PartialEq: equality of two string slices is equality of
/// their characters.
#[verifier::external_body]
pub fn str_eq(a: &str, b: &str) -> (r: bool)
    ensures
        r == (a@ == b@),
{
    a == b
}

/// The translation state of a single string unit. Only `Translated` content
/// is usable for output; any other state tag found in a document is retained
/// verbatim in `Other`.
#[derive(Debug)]
pub enum StringUnitState {
    Translated,
    Other(String),
}

/// One literal translated string together with its translation state.
#[derive(Debug)]
pub struct StringUnit {
    pub state: StringUnitState,
    pub value: String,
}

/// The localization of one key for one locale. A document node carries at
/// most one of the three shapes; a node carrying none of them is `Empty`
/// (present but not a usable translation).
#[derive(Debug)]
pub enum Localization {
    /// A single fixed translated string.
    Fixed(StringUnit),
    /// One sub-localization per plural category (`one`, `other`, ...).
    PluralVariant(Vec<(String, Localization)>),
    /// One sub-localization per device class (`mac`, `iphone`, ...).
    DeviceVariant(Vec<(String, Localization)>),
    /// A node carrying none of the recognized shapes.
    Empty,
}

/// The extraction marker of an entry; document metadata, not consumed by
/// resolution. Tags other than `manual` are retained verbatim.
#[derive(Debug)]
pub enum ExtractionState {
    Manual,
    Other(String),
}

/// A single entry of the catalog's `strings` mapping: its localizations
/// keyed by locale code, plus immutable document metadata.
#[derive(Debug)]
pub struct StringEntry {
    pub comment: Option<String>,
    pub extraction_state: Option<ExtractionState>,
    pub localizations: Vec<(String, Localization)>,
}

/// The root of a parsed catalog document.
#[derive(Debug)]
pub struct Root {
    pub version: String,
    pub source_language: String,
    pub strings: Vec<(String, StringEntry)>,
}

/// The parser's error type.
#[derive(Debug)]
pub enum Error {
    /// The document is not valid JSON or does not match the catalog shape;
    /// carries the underlying diagnostic.
    Parse(String),
    /// The document parsed structurally but declares a schema version other
    /// than the supported one.
    UnsupportedVersion { expected: String, found: String },
}

/// The kind of a resolver diagnostic.
#[derive(Clone, Copy, PartialEq, Eq, Structural, Debug)]
pub enum DiagKind {
    /// The entry has no localization at all for the requested locale.
    MissingLocalization,
    /// The entry has a fixed localization whose state is not `translated`.
    UntranslatedSkipped,
    /// The entry's localization is a plural or device variant, which has no
    /// single scalar value; it is never silently coerced to one branch.
    AmbiguousVariant,
    /// The entry's localization node carries none of the recognized shapes.
    NoUsableTranslation,
    /// Category-suffix expansion would have produced a key that is already
    /// present in the same locale mapping; the candidate was not inserted.
    Collision,
}

/// One recoverable, reportable resolution event: which kind, for which
/// output key and which locale. Resolution never aborts on these.
#[derive(Debug)]
pub struct Diagnostic {
    pub kind: DiagKind,
    pub key: String,
    pub locale: String,
}

/// Spec-level lookup in an association list keyed by strings: the value of
/// the last pair whose key's view equals `k`, if any.
pub open spec fn assoc_lookup<V>(s: Seq<(String, V)>, k: Seq<char>) -> Option<V>
    decreases s.len(),
{
    if s.len() == 0 {
        None
    } else if s.last().0@ == k {
        Some(s.last().1)
    } else {
        assoc_lookup(s.drop_last(), k)
    }
}

/// The keys of an association list are pairwise distinct (by view).
pub open spec fn assoc_keys_unique<V>(s: Seq<(String, V)>) -> bool {
    forall|i: int, j: int| 0 <= i < j < s.len() ==> s[i].0@ != s[j].0@
}

/// With distinct keys, a pair found at any index is what `assoc_lookup`
/// returns for its key.
pub proof fn lemma_assoc_lookup_at<V>(s: Seq<(String, V)>, i: int)
    requires
        assoc_keys_unique(s),
        0 <= i < s.len(),
    ensures
        assoc_lookup(s, s[i].0@) == Some(s[i].1),
    decreases s.len(),
{
    if i == s.len() - 1 {
    } else {
        assert(s.last().0@ != s[i].0@);
        assert(s.drop_last()[i] == s[i]);
        lemma_assoc_lookup_at(s.drop_last(), i);
    }
}

/// A key matched by no pair is not found by `assoc_lookup`.
pub proof fn lemma_assoc_lookup_absent<V>(s: Seq<(String, V)>, k: Seq<char>)
    requires
        forall|i: int| 0 <= i < s.len() ==> s[i].0@ != k,
    ensures
        assoc_lookup(s, k) is None,
    decreases s.len(),
{
    if s.len() > 0 {
        lemma_assoc_lookup_absent(s.drop_last(), k);
    }
}

impl StringEntry {
    /// The entry's locale keys are pairwise distinct.
    pub open spec fn wf(self) -> bool {
        assoc_keys_unique(self.localizations@)
    }
}

impl Root {
    /// Well-formedness of a parsed catalog: the translation keys are
    /// pairwise distinct, and so are each entry's locale keys.
    pub open spec fn wf(self) -> bool {
        &&& assoc_keys_unique(self.strings@)
        &&& forall|i: int|
            0 <= i < self.strings@.len() ==> (#[trigger] self.strings@[i].1).wf()
    }
}

} // verus!
