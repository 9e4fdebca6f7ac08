//! Canonical stable identifiers.
//!
//! Every persistent entity of a project is referenced by a string id of the
//! form `<prefix>_<slug>`: the prefix names the entity kind (`mrf`, `nod`, …),
//! the slug matches `[a-z0-9_]+`, and the whole id is at most `ID_MAX_LEN`
//! bytes long. Ids are derived, never random: `MorphId::for_slider("head_width")`
//! is always `mrf_head_width`.
use vstd::prelude::*;
use vstd::string::StrSliceExecFns;
use vstd::utf8::encode_utf8;

use crate::text::{
    all_white, ascii_lower, chars_eq, chars_of, fnv1a64_bytes, fnv1a64_of, hex16, hex16_string,
    index_of_char, is_ascii_alnum, is_ascii_digit, is_ascii_lower, is_ascii_upper, is_white_space, lower_all, pow16,
    push_char, string_of, decimal, decimal_string, to_ascii_lower, trim, trim_chars, white_space,
};

verus! {

/// Maximum accepted length of an encoded id (prefix + `_` + slug), in bytes.
pub const ID_MAX_LEN: usize = 128;

/// Canonical prefix of project ids.
pub const PREFIX_PROJECT: &'static str = "prj";
/// Canonical prefix of character ids.
pub const PREFIX_CHARACTER: &'static str = "chr";
/// Canonical prefix of morph ids.
pub const PREFIX_MORPH: &'static str = "mrf";
/// Canonical prefix of scene ids.
pub const PREFIX_SCENE: &'static str = "scn";
/// Canonical prefix of scene node ids.
pub const PREFIX_NODE: &'static str = "nod";
/// Canonical prefix of material ids.
pub const PREFIX_MATERIAL: &'static str = "mat";
/// Canonical prefix of asset ids.
pub const PREFIX_ASSET: &'static str = "ast";
/// Canonical prefix of camera ids.
pub const PREFIX_CAMERA: &'static str = "cam";
/// Canonical prefix of light ids.
pub const PREFIX_LIGHT: &'static str = "lgt";
/// Canonical prefix of animation clip ids.
pub const PREFIX_ANIMATION: &'static str = "ani";

// ---------------------------------------------------------------------------
// Slugs
// ---------------------------------------------------------------------------

/// `[a-z0-9_]`
pub open spec fn is_slug_char(c: char) -> bool {
    is_ascii_lower(c) || is_ascii_digit(c) || c == '_'
}

/// A non-empty run of at most `ID_MAX_LEN` slug characters.
pub open spec fn valid_slug(s: Seq<char>) -> bool {
    &&& 0 < s.len() <= ID_MAX_LEN
    &&& forall|i: int| 0 <= i < s.len() ==> is_slug_char(#[trigger] s[i])
}

/// Accent folding of the Portuguese-friendly labels of the catalog.
pub open spec fn accent_fold(ch: char) -> Option<char> {
    let lower = ascii_lower(ch);
    if lower == 'á' || lower == 'à' || lower == 'â' || lower == 'ã' || lower == 'ä' || lower
        == 'å' {
        Some('a')
    } else if lower == 'é' || lower == 'è' || lower == 'ê' || lower == 'ë' {
        Some('e')
    } else if lower == 'í' || lower == 'ì' || lower == 'î' || lower == 'ï' {
        Some('i')
    } else if lower == 'ó' || lower == 'ò' || lower == 'ô' || lower == 'õ' || lower == 'ö' {
        Some('o')
    } else if lower == 'ú' || lower == 'ù' || lower == 'û' || lower == 'ü' {
        Some('u')
    } else if lower == 'ç' {
        Some('c')
    } else if lower == 'ñ' {
        Some('n')
    } else {
        None
    }
}

/// Characters that only separate words of a label.
pub open spec fn is_label_separator(c: char) -> bool {
    is_white_space(c) || c == '-' || c == '_' || c == '/' || c == '.'
}

/// What one label character contributes to its slug: a kept character or a
/// word break (`None`).
pub open spec fn slug_class(c: char) -> Option<char> {
    if is_ascii_alnum(c) {
        Some(ascii_lower(c))
    } else if is_label_separator(c) {
        None
    } else {
        accent_fold(c)
    }
}

/// Slug built from a label prefix, with the "a word break is pending" flag.
pub open spec fn slugify_state(s: Seq<char>) -> (Seq<char>, bool)
    decreases s.len(),
{
    if s.len() == 0 {
        (Seq::empty(), false)
    } else {
        let prev = slugify_state(s.drop_last());
        match slug_class(s.last()) {
            Some(k) => (
                (if prev.1 && prev.0.len() > 0 {
                    prev.0.push('_')
                } else {
                    prev.0
                }).push(k),
                false,
            ),
            None => (prev.0, true),
        }
    }
}

/// The slug of a label: kept characters, lower-cased and accent-folded, with
/// a single `_` between words and none at either end.
pub open spec fn slugify_spec(s: Seq<char>) -> Seq<char> {
    slugify_state(s).0
}

/// The slug actually used by `from_slug`: the input when it is already valid,
/// else its slugification when that is valid, else the hex FNV-1a of its bytes.
pub open spec fn clean_slug(slug: Seq<char>) -> Seq<char> {
    if valid_slug(slug) {
        slug
    } else if valid_slug(slugify_spec(slug)) {
        slugify_spec(slug)
    } else {
        hex16(fnv1a64_of(encode_utf8(slug)))
    }
}

/// `slug` is already an id of the kind: a valid slug made of the prefix, `_`
/// and a non-empty rest.
pub open spec fn carries_prefix(prefix: Seq<char>, slug: Seq<char>) -> bool {
    &&& valid_slug(slug)
    &&& slug.len() > prefix.len() + 1
    &&& slug.take(prefix.len() as int) == prefix
    &&& slug[prefix.len() as int] == '_'
}

/// The id `from_slug` builds: a slug that already carries the prefix is kept
/// as it is; any other slug becomes `<prefix>_<slug>`, the slug cut so that
/// the id fits in `ID_MAX_LEN`.
pub open spec fn encode_id(prefix: Seq<char>, slug: Seq<char>) -> Seq<char> {
    if carries_prefix(prefix, slug) {
        slug
    } else {
        let clean = clean_slug(slug);
        let budget = ID_MAX_LEN - (prefix.len() + 1);
        prefix + seq!['_'] + (if clean.len() <= budget {
            clean
        } else {
            clean.take(budget)
        })
    }
}

/// The slug `from_label` derives from a label: its slugification, or, when
/// that is empty, the hex FNV-1a of the label's own UTF-8 bytes.
pub open spec fn label_slug(label: Seq<char>) -> Seq<char> {
    let s = slugify_spec(label);
    if s.len() == 0 {
        hex16(fnv1a64_of(encode_utf8(label)))
    } else {
        s
    }
}

/// A well-formed kind prefix: three lower-case ASCII letters.
pub open spec fn valid_prefix(p: Seq<char>) -> bool {
    p.len() == 3 && forall|i: int| 0 <= i < 3 ==> is_ascii_lower(#[trigger] p[i])
}

/// Canonical URI normalization: `\` becomes `/`.
pub open spec fn backslash_to_slash(s: Seq<char>) -> Seq<char> {
    s.map_values(|c: char| if c == '\\' { '/' } else { c })
}

/// Canonical URI normalization: the query string is dropped.
pub open spec fn cut_query(s: Seq<char>) -> Seq<char> {
    let k = index_of_char(s, '?');
    if k < 0 {
        s
    } else {
        s.take(k)
    }
}

/// Canonical URI normalization: every leading `./` is dropped.
pub open spec fn strip_dot_slash(s: Seq<char>) -> Seq<char>
    decreases s.len(),
{
    if s.len() >= 2 && s[0] == '.' && s[1] == '/' {
        strip_dot_slash(s.skip(2))
    } else {
        s
    }
}

/// Canonical URI (case-stable, separator-stable, no query string).
pub open spec fn normalize_uri_spec(s: Seq<char>) -> Seq<char> {
    lower_all(strip_dot_slash(cut_query(backslash_to_slash(trim(s)))))
}

// ---------------------------------------------------------------------------
// Errors
// ---------------------------------------------------------------------------

/// Failures produced while parsing an identifier.
#[derive(Debug, Clone, PartialEq, Eq)]
pub enum IdError {
    /// The id was empty or contained only white space.
    Empty { expected: &'static str },
    /// The id exceeded `ID_MAX_LEN` bytes.
    TooLong { found: String },
    /// The id did not contain the `<prefix>_<slug>` separator.
    MissingSeparator { expected: &'static str, found: String },
    /// The prefix did not match the entity kind.
    WrongPrefix { expected: &'static str, actual: String, found: String },
    /// The slug was empty or contained illegal characters.
    InvalidSlug { found: String },
}

/// Mathematical view of an `IdError`.
pub enum IdErrorView {
    Empty { expected: Seq<char> },
    TooLong { found: Seq<char> },
    MissingSeparator { expected: Seq<char>, found: Seq<char> },
    WrongPrefix { expected: Seq<char>, actual: Seq<char>, found: Seq<char> },
    InvalidSlug { found: Seq<char> },
}

impl View for IdError {
    type V = IdErrorView;

    open spec fn view(&self) -> IdErrorView {
        match self {
            IdError::Empty { expected } => IdErrorView::Empty { expected: expected@ },
            IdError::TooLong { found } => IdErrorView::TooLong { found: found@ },
            IdError::MissingSeparator { expected, found } => IdErrorView::MissingSeparator {
                expected: expected@,
                found: found@,
            },
            IdError::WrongPrefix { expected, actual, found } => IdErrorView::WrongPrefix {
                expected: expected@,
                actual: actual@,
                found: found@,
            },
            IdError::InvalidSlug { found } => IdErrorView::InvalidSlug { found: found@ },
        }
    }
}

/// The text of an identifier error.
pub open spec fn id_error_message(e: IdErrorView) -> Seq<char> {
    match e {
        IdErrorView::Empty { expected } => "empty identifier for "@ + expected,
        IdErrorView::TooLong { found } => "identifier '"@ + found + "' is too long: "@ + decimal(
            encode_utf8(found).len(),
        ) + " bytes (max "@ + decimal(ID_MAX_LEN as nat) + ")"@,
        IdErrorView::MissingSeparator { expected, found } => "identifier '"@ + found
            + "' is missing the '<prefix>_<slug>' separator (expected prefix '"@ + expected + "')"@,
        IdErrorView::WrongPrefix { expected, actual, found } => "identifier '"@ + found + "' has prefix '"@ + actual
            + "', expected '"@ + expected + "'"@,
        IdErrorView::InvalidSlug { found } => "identifier '"@ + found
            + "' has an invalid slug: must match [a-z0-9_]+ and be non-empty"@,
    }
}

impl IdError {
    /// The text of the error.
    pub fn message(&self) -> (m: String)
        ensures
            m@ == id_error_message(self@),
    {
        match self {
            IdError::Empty { expected } => {
                let mut m = String::from_str("empty identifier for ");
                m.append(expected);
                m
            },
            IdError::TooLong { found } => {
                let mut m = String::from_str("identifier '");
                m.append(found.as_str());
                m.append("' is too long: ");
                let bytes = found.as_str().as_bytes().len();
                let count = decimal_string(bytes as u64);
                m.append(count.as_str());
                m.append(" bytes (max ");
                let max = decimal_string(ID_MAX_LEN as u64);
                m.append(max.as_str());
                m.append(")");
                m
            },
            IdError::MissingSeparator { expected, found } => {
                let mut m = String::from_str("identifier '");
                m.append(found.as_str());
                m.append("' is missing the '<prefix>_<slug>' separator (expected prefix '");
                m.append(expected);
                m.append("')");
                m
            },
            IdError::WrongPrefix { expected, actual, found } => {
                let mut m = String::from_str("identifier '");
                m.append(found.as_str());
                m.append("' has prefix '");
                m.append(actual.as_str());
                m.append("', expected '");
                m.append(expected);
                m.append("'");
                m
            },
            IdError::InvalidSlug { found } => {
                let mut m = String::from_str("identifier '");
                m.append(found.as_str());
                m.append("' has an invalid slug: must match [a-z0-9_]+ and be non-empty");
                m
            },
        }
    }
}

/// Outcome of parsing `raw` (whose UTF-8 encoding has `raw_bytes` bytes) as an
/// id of the kind with `prefix` and human `label`.
pub open spec fn parse_id_spec(raw: Seq<char>, raw_bytes: nat, prefix: Seq<char>, label: Seq<char>) -> Result<
    Seq<char>,
    IdErrorView,
> {
    if all_white(raw) {
        Err(IdErrorView::Empty { expected: label })
    } else if raw_bytes > ID_MAX_LEN {
        Err(IdErrorView::TooLong { found: raw })
    } else {
        let k = index_of_char(raw, '_');
        if k < 0 {
            Err(IdErrorView::MissingSeparator { expected: prefix, found: raw })
        } else if raw.take(k) != prefix {
            Err(IdErrorView::WrongPrefix { expected: prefix, actual: raw.take(k), found: raw })
        } else if !valid_slug(raw.skip(k + 1)) {
            Err(IdErrorView::InvalidSlug { found: raw })
        } else {
            Ok(raw)
        }
    }
}

/// What a parse outcome says of an id: `Ok` with the encoded form, or the error.
pub open spec fn parse_outcome<T: View<V = Seq<char>>>(r: Result<T, IdError>) -> Result<
    Seq<char>,
    IdErrorView,
> {
    match r {
        Ok(id) => Ok(id@),
        Err(e) => Err(e@),
    }
}

// ---------------------------------------------------------------------------
// Lemmas
// ---------------------------------------------------------------------------

proof fn lemma_index_of_char_first(s: Seq<char>, c: char, k: int)
    requires
        0 <= k <= s.len(),
        forall|j: int| 0 <= j < k ==> s[j] != c,
    ensures
        k < s.len() && s[k] == c ==> index_of_char(s, c) == k,
        k == s.len() ==> index_of_char(s, c) == -1,
    decreases k,
{
    if k > 0 {
        lemma_index_of_char_first(s.drop_first(), c, k - 1);
    }
}

/// `index_of_char` points at the first occurrence.
pub proof fn lemma_index_of_char_facts(s: Seq<char>, c: char)
    ensures
        -1 <= index_of_char(s, c) < s.len(),
        index_of_char(s, c) >= 0 ==> s[index_of_char(s, c)] == c,
        forall|j: int| 0 <= j < s.len() && (index_of_char(s, c) < 0 || j < index_of_char(s, c)) ==> s[j] != c,
    decreases s.len(),
{
    if s.len() > 0 {
        lemma_index_of_char_facts(s.drop_first(), c);
        if s[0] != c {
            assert forall|j: int| 0 <= j < s.len() && (index_of_char(s, c) < 0 || j < index_of_char(s, c)) implies s[j] != c by {
                if j > 0 {
                    assert(s[j] == s.drop_first()[j - 1]);
                }
            }
        }
    }
}

/// The hex rendering of any value is a valid slug.
pub proof fn lemma_hex16_is_slug(v: u64)
    ensures
        valid_slug(hex16(v)),
        hex16(v).len() == 16,
        forall|i: int| 0 <= i < 16 ==> #[trigger] hex16(v)[i] != '_',
{
    assert forall|i: int| 0 <= i < 16 implies is_slug_char(#[trigger] hex16(v)[i]) && hex16(v)[i] != '_' by {
        let d = ((v as nat) / pow16((15 - i) as nat)) % 16;
        assert(d < 16);
    }
}

/// A valid slug is left untouched by `from_slug` (no truncation with a
/// three-letter prefix when it is at most 124 characters).
pub proof fn lemma_encode_valid_slug(prefix: Seq<char>, slug: Seq<char>)
    requires
        valid_prefix(prefix),
        valid_slug(slug),
        slug.len() <= ID_MAX_LEN - 4,
        !carries_prefix(prefix, slug),
    ensures
        encode_id(prefix, slug) == prefix + seq!['_'] + slug,
{
}

/// The slug chosen by `from_slug` is always a valid slug.
pub proof fn lemma_clean_slug_valid(slug: Seq<char>)
    ensures
        valid_slug(clean_slug(slug)),
{
    if !valid_slug(slug) && !valid_slug(slugify_spec(slug)) {
        lemma_hex16_is_slug(fnv1a64_of(encode_utf8(slug)));
    }
}

/// Derived identifiers always parse: for every slug (or label) and every
/// kind, `parse(from_slug(slug))` succeeds and gives back the same id.
pub proof fn law_derived_ids_parse(prefix: Seq<char>, label: Seq<char>, slug: Seq<char>)
    requires
        valid_prefix(prefix),
    ensures
        ({
            let id = encode_id(prefix, slug);
            parse_id_spec(id, encode_utf8(id).len(), prefix, label) == Ok::<Seq<char>, IdErrorView>(id)
        }),
{
    let id = encode_id(prefix, slug);
    let clean = clean_slug(slug);
    lemma_clean_slug_valid(slug);
    let tail = if carries_prefix(prefix, slug) {
        slug.skip(4)
    } else if clean.len() <= ID_MAX_LEN - 4 {
        clean
    } else {
        clean.take(ID_MAX_LEN - 4)
    };
    if carries_prefix(prefix, slug) {
        assert(slug.take(3) == prefix);
        assert(id =~= prefix + seq!['_'] + tail) by {
            assert forall|i: int| 0 <= i < id.len() implies id[i] == (prefix + seq!['_'] + tail)[i] by {
                if i < 3 {
                    assert(slug.take(3)[i] == slug[i]);
                }
            }
        }
        assert(valid_slug(tail)) by {
            assert forall|i: int| 0 <= i < tail.len() implies is_slug_char(#[trigger] tail[i]) by {
                assert(tail[i] == slug[i + 4]);
            }
        }
    } else {
        assert(id =~= prefix + seq!['_'] + tail);
        assert(valid_slug(tail)) by {
            assert forall|i: int| 0 <= i < tail.len() implies is_slug_char(#[trigger] tail[i]) by {
                assert(tail[i] == clean[i]);
            }
        }
    }
    assert(id.len() <= ID_MAX_LEN);
    assert(vstd::utf8::is_ascii_chars(id)) by {
        assert forall|i: int| 0 <= i < id.len() implies '\0' <= #[trigger] id[i] <= '\u{7f}' by {
            if i < 3 {
                assert(id[i] == prefix[i]);
            } else if i > 3 {
                assert(id[i] == tail[i - 4]);
                assert(is_slug_char(tail[i - 4]));
            }
        }
    }
    vstd::utf8::is_ascii_chars_encode_utf8(id);
    assert(!all_white(id)) by {
        assert(id[3] == '_');
    }
    assert(forall|j: int| 0 <= j < 3 ==> id[j] != '_') by {
        assert forall|j: int| 0 <= j < 3 implies id[j] != '_' by {
            assert(id[j] == prefix[j]);
        }
    }
    lemma_index_of_char_first(id, '_', 3);
    assert(id.take(3) =~= prefix);
    assert(id.skip(4) =~= tail);
}

/// A slider id that is a valid slug survives the round trip
/// `slider_id(for_slider(x)) == x`, unless it already starts with `mrf_`:
/// then it is kept as the morph id and the round trip gives what follows
/// `mrf_`.
pub proof fn law_slider_round_trip(x: Seq<char>)
    requires
        valid_slug(x),
        x.len() <= ID_MAX_LEN - 4,
    ensures
        ({
            let id = encode_id(seq!['m', 'r', 'f'], x);
            &&& id.len() >= 4
            &&& id.take(4) == seq!['m', 'r', 'f', '_']
            &&& !carries_prefix(seq!['m', 'r', 'f'], x) ==> id.skip(4) == x && slider_part(id) == x
            &&& carries_prefix(seq!['m', 'r', 'f'], x) ==> id == x && slider_part(id) == x.skip(4)
        }),
{
    let id = encode_id(seq!['m', 'r', 'f'], x);
    if carries_prefix(seq!['m', 'r', 'f'], x) {
        assert(x.take(3) == seq!['m', 'r', 'f']);
        assert(x.take(4) =~= seq!['m', 'r', 'f', '_']) by {
            assert(x.take(4)[0] == x.take(3)[0]);
            assert(x.take(4)[1] == x.take(3)[1]);
            assert(x.take(4)[2] == x.take(3)[2]);
        }
    } else {
        lemma_encode_valid_slug(seq!['m', 'r', 'f'], x);
        assert(id.take(4) =~= seq!['m', 'r', 'f', '_']);
        assert(id.skip(4) =~= x);
    }
}

proof fn lemma_slug_class_charset(c: char)
    ensures
        slug_class(c) matches Some(k) ==> is_slug_char(k) && k != '_',
{
    if is_ascii_upper(c) {
        assert(('a' as u32) <= (c as u32) + 32 <= ('z' as u32));
    }
}

/// Slugification only ever produces slug characters.
pub proof fn law_slugify_charset(label: Seq<char>)
    ensures
        forall|i: int| 0 <= i < slugify_spec(label).len() ==> is_slug_char(#[trigger] slugify_spec(label)[i]),
    decreases label.len(),
{
    if label.len() > 0 {
        law_slugify_charset(label.drop_last());
        let prev = slugify_state(label.drop_last());
        let out = slugify_spec(label);
        assert forall|i: int| 0 <= i < out.len() implies is_slug_char(#[trigger] out[i]) by {
            match slug_class(label.last()) {
                Some(k) => {
                    lemma_slug_class_charset(label.last());
                    let base = if prev.1 && prev.0.len() > 0 {
                        prev.0.push('_')
                    } else {
                        prev.0
                    };
                    assert(out == base.push(k));
                    if i < prev.0.len() {
                        assert(out[i] == base[i]);
                        assert(base[i] == prev.0[i]);
                        assert(is_slug_char(slugify_spec(label.drop_last())[i]));
                    } else if i == base.len() {
                        assert(out[i] == k);
                    } else {
                        assert(out[i] == base[i]);
                        assert(base[i] == '_');
                    }
                },
                None => {
                    assert(out == prev.0);
                    assert(is_slug_char(slugify_spec(label.drop_last())[i]));
                },
            }
        }
    }
}

/// A label character that a slug keeps always shows in the slug: after it
/// the slug is longer and ends with its kept form.
proof fn lemma_kept_character_shows(label: Seq<char>, c: char)
    requires
        slug_class(c) is Some,
    ensures
        slugify_spec(label.push(c)).len() > slugify_spec(label).len(),
        slugify_spec(label.push(c)).last() == slug_class(c)->0,
{
    assert(label.push(c).drop_last() =~= label);
    assert(label.push(c).last() == c);
}

/// Accent folding of catalog labels: each lower-case Latin letter with a
/// diacritic (á à â ã ä å, é è ê ë, í ì î ï, ó ò ô õ ö, ú ù û ü, ç, ñ) is
/// kept as its base letter, so it never breaks a word; their upper-case
/// forms, which ASCII lower-casing leaves as they are, are word breaks. Any
/// kept character lengthens the slug and ends it with its kept form.
pub proof fn law_accent_folding(label: Seq<char>)
    ensures
        slug_class('á') == Some('a'),
        slug_class('à') == Some('a'),
        slug_class('â') == Some('a'),
        slug_class('ã') == Some('a'),
        slug_class('ä') == Some('a'),
        slug_class('å') == Some('a'),
        slug_class('é') == Some('e'),
        slug_class('è') == Some('e'),
        slug_class('ê') == Some('e'),
        slug_class('ë') == Some('e'),
        slug_class('í') == Some('i'),
        slug_class('ì') == Some('i'),
        slug_class('î') == Some('i'),
        slug_class('ï') == Some('i'),
        slug_class('ó') == Some('o'),
        slug_class('ò') == Some('o'),
        slug_class('ô') == Some('o'),
        slug_class('õ') == Some('o'),
        slug_class('ö') == Some('o'),
        slug_class('ú') == Some('u'),
        slug_class('ù') == Some('u'),
        slug_class('û') == Some('u'),
        slug_class('ü') == Some('u'),
        slug_class('ç') == Some('c'),
        slug_class('ñ') == Some('n'),
        slug_class('Á') is None,
        slug_class('É') is None,
        slug_class('Í') is None,
        slug_class('Ó') is None,
        slug_class('Ú') is None,
        slug_class('Ç') is None,
        slug_class('Ñ') is None,
        forall|c: char|
            #[trigger] slug_class(c) is Some ==> slugify_spec(label.push(c)).len() > slugify_spec(label).len()
                && slugify_spec(label.push(c)).last() == slug_class(c)->0,
{
    assert forall|c: char| #[trigger] slug_class(c) is Some implies slugify_spec(label.push(c)).len() > slugify_spec(
        label,
    ).len() && slugify_spec(label.push(c)).last() == slug_class(c)->0 by {
        lemma_kept_character_shows(label, c);
    }
}

/// A slug in normal form: slug characters, with `_` only between two other
/// characters (none at either end, never two in a row).
pub open spec fn slug_normal(t: Seq<char>) -> bool {
    &&& forall|i: int| 0 <= i < t.len() ==> is_slug_char(#[trigger] t[i])
    &&& t.len() > 0 ==> t[0] != '_' && t[t.len() - 1] != '_'
    &&& forall|i: int| 0 <= i < t.len() - 1 && #[trigger] t[i] == '_' ==> t[i + 1] != '_'
}

/// Every slugification is in normal form: no `_` at either end and none
/// doubled.
pub proof fn law_slugify_is_normal(label: Seq<char>)
    ensures
        slug_normal(slugify_spec(label)),
    decreases label.len(),
{
    if label.len() > 0 {
        law_slugify_is_normal(label.drop_last());
        let prev = slugify_state(label.drop_last());
        let o = prev.0;
        let out = slugify_spec(label);
        match slug_class(label.last()) {
            Some(k) => {
                lemma_slug_class_charset(label.last());
                let base = if prev.1 && o.len() > 0 {
                    o.push('_')
                } else {
                    o
                };
                assert(out == base.push(k));
                assert forall|i: int| 0 <= i < out.len() implies is_slug_char(#[trigger] out[i]) by {
                    if i < o.len() {
                        assert(out[i] == o[i]);
                    } else if i < base.len() {
                        assert(out[i] == '_');
                    } else {
                        assert(out[i] == k);
                    }
                }
                assert(out[0] != '_') by {
                    if o.len() > 0 {
                        assert(out[0] == o[0]);
                    }
                }
                assert forall|i: int| 0 <= i < out.len() - 1 && #[trigger] out[i] == '_' implies out[i + 1] != '_' by {
                    if i + 1 < o.len() {
                        assert(out[i] == o[i]);
                        assert(out[i + 1] == o[i + 1]);
                    } else if i + 1 == o.len() {
                        assert(out[i] == o[o.len() - 1]);
                    }
                }
            },
            None => {
                assert(out == o);
            },
        }
    }
}

/// On the prefixes of a slug in normal form, the slugification keeps every
/// character and holds a trailing `_` back as a pending word break.
proof fn lemma_slugify_normal_prefix(t: Seq<char>, k: int)
    requires
        slug_normal(t),
        0 <= k <= t.len(),
    ensures
        slugify_state(t.take(k)) == (if k > 0 && t[k - 1] == '_' {
            (t.take(k - 1), true)
        } else {
            (t.take(k), false)
        }),
    decreases k,
{
    if k == 0 {
        assert(t.take(0) =~= Seq::<char>::empty());
    } else {
        lemma_slugify_normal_prefix(t, k - 1);
        let c = t[k - 1];
        assert(t.take(k).drop_last() =~= t.take(k - 1));
        assert(t.take(k).last() == c);
        assert(is_slug_char(c));
        if c == '_' {
            assert(slug_class(c) is None);
            assert(k - 1 > 0);
            assert(t[k - 2] != '_');
        } else {
            assert(slug_class(c) == Some(c));
            if k >= 2 && t[k - 2] == '_' {
                assert(t.take(k - 2).push('_').push(c) =~= t.take(k));
            } else {
                assert(t.take(k - 1).push(c) =~= t.take(k));
            }
        }
    }
}

/// A slug in normal form is its own slugification.
pub proof fn law_normal_slug_is_fixed(t: Seq<char>)
    requires
        slug_normal(t),
    ensures
        slugify_spec(t) == t,
{
    lemma_slugify_normal_prefix(t, t.len() as int);
    assert(t.take(t.len() as int) =~= t);
}

/// Slugification is idempotent: `slugify(slugify(x)) == slugify(x)`.
pub proof fn law_slugify_idempotent(label: Seq<char>)
    ensures
        slugify_spec(slugify_spec(label)) == slugify_spec(label),
{
    law_slugify_is_normal(label);
    law_normal_slug_is_fixed(slugify_spec(label));
}

/// Dropping the leading `./` runs keeps a suffix that does not start with
/// `./`.
proof fn lemma_strip_dot_slash_suffix(s: Seq<char>)
    ensures
        strip_dot_slash(s).len() <= s.len(),
        forall|i: int|
            0 <= i < strip_dot_slash(s).len() ==> #[trigger] strip_dot_slash(s)[i] == s[i + (s.len()
                - strip_dot_slash(s).len())],
        !(strip_dot_slash(s).len() >= 2 && strip_dot_slash(s)[0] == '.' && strip_dot_slash(s)[1] == '/'),
    decreases s.len(),
{
    if s.len() >= 2 && s[0] == '.' && s[1] == '/' {
        lemma_strip_dot_slash_suffix(s.skip(2));
    }
}

/// ASCII lower-casing changes only upper-case letters, into lower-case ones.
proof fn lemma_ascii_lower_facts(c: char)
    ensures
        !is_ascii_upper(c) ==> ascii_lower(c) == c,
        is_ascii_upper(c) ==> is_ascii_lower(ascii_lower(c)),
        !is_ascii_upper(ascii_lower(c)),
{
    if is_ascii_upper(c) {
        assert(('a' as u32) <= (c as u32) + 32 <= ('z' as u32));
    }
}

/// The shape of a normalized URI: no `\`, no `?`, no leading `./`, no
/// upper-case ASCII letter, and, when the URI has no white space, none
/// either.
pub proof fn law_normalized_uri_shape(s: Seq<char>)
    ensures
        ({
            let u = normalize_uri_spec(s);
            &&& forall|i: int| 0 <= i < u.len() ==> #[trigger] u[i] != '\\' && u[i] != '?' && !is_ascii_upper(u[i])
            &&& !(u.len() >= 2 && u[0] == '.' && u[1] == '/')
            &&& lower_all(u) == u
            &&& (forall|i: int| 0 <= i < s.len() ==> !is_white_space(#[trigger] s[i])) ==> forall|i: int|
                0 <= i < u.len() ==> !is_white_space(#[trigger] u[i])
        }),
{
    let t = trim(s);
    let b = backslash_to_slash(t);
    let c = cut_query(b);
    let x = strip_dot_slash(c);
    let u = lower_all(x);
    assert(u == normalize_uri_spec(s));
    lemma_index_of_char_facts(b, '?');
    lemma_strip_dot_slash_suffix(c);
    let off = c.len() - x.len();
    assert forall|i: int| 0 <= i < x.len() implies #[trigger] x[i] != '\\' && x[i] != '?' && x[i] == b[i + off] by {
        assert(x[i] == c[i + off]);
        assert(c[i + off] == b[i + off]);
    }
    assert forall|i: int| 0 <= i < u.len() implies #[trigger] u[i] != '\\' && u[i] != '?' && !is_ascii_upper(u[i])
        && ascii_lower(u[i]) == u[i] by {
        lemma_ascii_lower_facts(x[i]);
        lemma_ascii_lower_facts(u[i]);
    }
    assert(!(u.len() >= 2 && u[0] == '.' && u[1] == '/')) by {
        if u.len() >= 2 {
            lemma_ascii_lower_facts(x[0]);
            lemma_ascii_lower_facts(x[1]);
        }
    }
    assert(lower_all(u) =~= u);
    if forall|i: int| 0 <= i < s.len() ==> !is_white_space(#[trigger] s[i]) {
        lemma_trim_without_white_space(s);
        assert forall|i: int| 0 <= i < u.len() implies !is_white_space(#[trigger] u[i]) by {
            let k = i + off;
            assert(b[k] == (if t[k] == '\\' { '/' } else { t[k] }));
            assert(!is_white_space(t[k]));
            assert(!is_white_space(x[i]));
            lemma_ascii_lower_facts(x[i]);
        }
    }
}

/// Trimming a text without white space leaves it as it is.
proof fn lemma_trim_without_white_space(s: Seq<char>)
    requires
        forall|i: int| 0 <= i < s.len() ==> !is_white_space(#[trigger] s[i]),
    ensures
        trim(s) == s,
{
    if s.len() > 0 {
        assert(!is_white_space(s[0]));
        assert(!is_white_space(s.last()));
    }
}

/// Canonical URI normalization is idempotent: normalizing a normalized URI
/// changes nothing. This holds whenever the normalized URI has no white
/// space at its ends (cutting the query string or the leading `./` can
/// uncover some, as in `"a ?x"`, which normalizes to `"a "`).
pub proof fn law_normalize_uri_idempotent(s: Seq<char>)
    requires
        trim(normalize_uri_spec(s)) == normalize_uri_spec(s),
    ensures
        normalize_uri_spec(normalize_uri_spec(s)) == normalize_uri_spec(s),
{
    let u = normalize_uri_spec(s);
    law_normalized_uri_shape(s);
    assert(backslash_to_slash(u) =~= u);
    lemma_index_of_char_facts(u, '?');
    assert(cut_query(u) == u);
    assert(strip_dot_slash(u) == u);
}

/// A URI without white space normalizes to a fixed point of the
/// normalization.
pub proof fn law_normalize_uri_idempotent_without_white_space(s: Seq<char>)
    requires
        forall|i: int| 0 <= i < s.len() ==> !is_white_space(#[trigger] s[i]),
    ensures
        normalize_uri_spec(normalize_uri_spec(s)) == normalize_uri_spec(s),
{
    let u = normalize_uri_spec(s);
    law_normalized_uri_shape(s);
    lemma_trim_without_white_space(u);
    law_normalize_uri_idempotent(s);
}

// ---------------------------------------------------------------------------
// Free functions
// ---------------------------------------------------------------------------

/// Returns `true` when `slug` matches `[a-z0-9_]+` and fits in `ID_MAX_LEN`.
pub fn is_valid_slug(slug: &str) -> (b: bool)
    ensures
        b == valid_slug(slug@),
{
    let chars = chars_of(slug);
    if chars.len() == 0 || chars.len() > ID_MAX_LEN {
        return false;
    }
    let mut i: usize = 0;
    while i < chars.len()
        invariant
            i <= chars.len(),
            chars@ == slug@,
            forall|j: int| 0 <= j < i ==> is_slug_char(#[trigger] chars@[j]),
        decreases chars.len() - i,
    {
        let c = chars[i];
        if !(('a' <= c && c <= 'z') || ('0' <= c && c <= '9') || c == '_') {
            return false;
        }
        i += 1;
    }
    true
}

/// Minimal accent folding (no external tables, deterministic).
fn fold_ascii(ch: char) -> (r: Option<char>)
    ensures
        r == accent_fold(ch),
{
    let lower = to_ascii_lower(ch);
    if lower == 'á' || lower == 'à' || lower == 'â' || lower == 'ã' || lower == 'ä' || lower
        == 'å' {
        Some('a')
    } else if lower == 'é' || lower == 'è' || lower == 'ê' || lower == 'ë' {
        Some('e')
    } else if lower == 'í' || lower == 'ì' || lower == 'î' || lower == 'ï' {
        Some('i')
    } else if lower == 'ó' || lower == 'ò' || lower == 'ô' || lower == 'õ' || lower == 'ö' {
        Some('o')
    } else if lower == 'ú' || lower == 'ù' || lower == 'û' || lower == 'ü' {
        Some('u')
    } else if lower == 'ç' {
        Some('c')
    } else if lower == 'ñ' {
        Some('n')
    } else {
        None
    }
}

/// Deterministic, ASCII-only slugification (`"Cabeça / Head" -> "cabeca_head"`).
pub fn slugify(label: &str) -> (out: String)
    ensures
        out@ == slugify_spec(label@),
{
    let chars = chars_of(label);
    let mut out = String::new();
    let mut pending_sep = false;
    let mut nonempty = false;
    let mut i: usize = 0;
    while i < chars.len()
        invariant
            i <= chars.len(),
            chars@ == label@,
            (out@, pending_sep) == slugify_state(chars@.take(i as int)),
            nonempty == (out@.len() > 0),
        decreases chars.len() - i,
    {
        let ch = chars[i];
        assert(chars@.take(i + 1).drop_last() =~= chars@.take(i as int));
        assert(chars@.take(i + 1).last() == ch);
        let alnum = ('a' <= ch && ch <= 'z') || ('A' <= ch && ch <= 'Z') || ('0' <= ch && ch
            <= '9');
        if alnum {
            if pending_sep && nonempty {
                push_char(&mut out, '_');
            }
            pending_sep = false;
            push_char(&mut out, to_ascii_lower(ch));
            nonempty = true;
        } else if white_space(ch) || ch == '-' || ch == '_' || ch == '/' || ch == '.' {
            pending_sep = true;
        } else {
            match fold_ascii(ch) {
                Some(c) => {
                    if pending_sep && nonempty {
                        push_char(&mut out, '_');
                    }
                    pending_sep = false;
                    push_char(&mut out, c);
                    nonempty = true;
                },
                None => {
                    pending_sep = true;
                },
            }
        }
        i += 1;
    }
    assert(chars@.take(chars.len() as int) =~= chars@);
    out
}

/// 64-bit FNV-1a of the UTF-8 bytes of `input`.
pub fn fnv1a64(input: &str) -> (hash: u64)
    ensures
        hash == fnv1a64_of(encode_utf8(input@)),
{
    fnv1a64_bytes(input.as_bytes())
}

/// Canonical URI normalization used for asset id derivation (case-stable,
/// separator-stable, no query strings).
pub fn normalize_uri(uri: &str) -> (out: String)
    ensures
        out@ == normalize_uri_spec(uri@),
{
    let raw = chars_of(uri);
    let trimmed = trim_chars(raw.as_slice());
    // `\` -> `/`
    let mut slashed: Vec<char> = Vec::new();
    let mut i: usize = 0;
    while i < trimmed.len()
        invariant
            i <= trimmed.len(),
            slashed@ =~= backslash_to_slash(trimmed@.take(i as int)),
        decreases trimmed.len() - i,
    {
        let c = trimmed[i];
        slashed.push(if c == '\\' { '/' } else { c });
        i += 1;
    }
    assert(trimmed@.take(trimmed.len() as int) =~= trimmed@);
    // query string
    let mut cut: usize = 0;
    while cut < slashed.len() && slashed[cut] != '?'
        invariant
            cut <= slashed.len(),
            forall|j: int| 0 <= j < cut ==> slashed@[j] != '?',
        decreases slashed.len() - cut,
    {
        cut += 1;
    }
    proof {
        lemma_index_of_char_first(slashed@, '?', cut as int);
    }
    let ghost queryless = cut_query(slashed@);
    assert(queryless =~= slashed@.take(cut as int));
    // leading "./"
    let mut start: usize = 0;
    assert(queryless.subrange(0, cut as int) =~= queryless);
    while cut - start >= 2 && slashed[start] == '.' && slashed[start + 1] == '/'
        invariant
            start <= cut <= slashed.len(),
            queryless.len() == cut,
            forall|j: int| 0 <= j < cut ==> queryless[j] == slashed@[j],
            strip_dot_slash(queryless) == strip_dot_slash(queryless.subrange(start as int, cut as int)),
        decreases cut - start,
    {
        let ghost sub = queryless.subrange(start as int, cut as int);
        assert(sub[0] == '.' && sub[1] == '/');
        assert(sub.skip(2) =~= queryless.subrange(start + 2, cut as int));
        start += 2;
    }
    let ghost stripped = queryless.subrange(start as int, cut as int);
    assert(strip_dot_slash(stripped) == stripped);
    let mut lowered: Vec<char> = Vec::new();
    let mut k: usize = start;
    while k < cut
        invariant
            start <= k <= cut <= slashed.len(),
            lowered@ =~= lower_all(slashed@.subrange(start as int, k as int)),
        decreases cut - k,
    {
        lowered.push(to_ascii_lower(slashed[k]));
        k += 1;
    }
    assert(slashed@.subrange(start as int, cut as int) =~= stripped);
    string_of(lowered.as_slice())
}

// ---------------------------------------------------------------------------
// Shared encode / parse machinery
// ---------------------------------------------------------------------------

/// Whether `slug` is a valid slug made of the prefix, `_` and a non-empty rest.
fn slug_carries_prefix(prefix: &'static str, slug: &str) -> (b: bool)
    requires
        valid_prefix(prefix@),
    ensures
        b == carries_prefix(prefix@, slug@),
{
    if !is_valid_slug(slug) {
        return false;
    }
    let p = chars_of(prefix);
    let c = chars_of(slug);
    if c.len() <= 4 || c[3] != '_' {
        return false;
    }
    let same = c[0] == p[0] && c[1] == p[1] && c[2] == p[2];
    proof {
        if same {
            assert(c@.take(3) =~= p@);
        } else {
            if c@.take(3) == p@ {
                assert(c@.take(3)[0] == c@[0]);
                assert(c@.take(3)[1] == c@[1]);
                assert(c@.take(3)[2] == c@[2]);
            }
        }
    }
    same
}

/// `<prefix>_<slug>` following the `from_slug` rules.
fn encode_from_slug(prefix: &'static str, slug: &str) -> (encoded: String)
    requires
        valid_prefix(prefix@),
    ensures
        encoded@ == encode_id(prefix@, slug@),
{
    if slug_carries_prefix(prefix, slug) {
        return slug.to_owned();
    }
    let clean: String = if is_valid_slug(slug) {
        slug.to_owned()
    } else {
        let slugified = slugify(slug);
        if is_valid_slug(slugified.as_str()) {
            slugified
        } else {
            hex16_string(fnv1a64(slug))
        }
    };
    assert(clean@ == clean_slug(slug@));
    let chars = chars_of(clean.as_str());
    let budget: usize = ID_MAX_LEN - 4;
    let keep: usize = if chars.len() <= budget {
        chars.len()
    } else {
        budget
    };
    let mut encoded = String::from_str(prefix);
    push_char(&mut encoded, '_');
    let mut i: usize = 0;
    while i < keep
        invariant
            i <= keep <= chars.len(),
            encoded@ =~= prefix@ + seq!['_'] + chars@.take(i as int),
        decreases keep - i,
    {
        push_char(&mut encoded, chars[i]);
        i += 1;
    }
    assert(chars@.take(chars.len() as int) =~= chars@);
    encoded
}

/// Validates `raw` against the `<prefix>_<slug>` rules of one kind.
fn parse_encoded(raw: &str, prefix: &'static str, label: &'static str) -> (r: Result<
    String,
    IdError,
>)
    requires
        valid_prefix(prefix@),
    ensures
        match r {
            Ok(s) => parse_id_spec(raw@, encode_utf8(raw@).len(), prefix@, label@) == Ok::<
                Seq<char>,
                IdErrorView,
            >(s@),
            Err(e) => parse_id_spec(raw@, encode_utf8(raw@).len(), prefix@, label@) == Err::<
                Seq<char>,
                IdErrorView,
            >(e@),
        },
{
    let chars = chars_of(raw);
    // blank?
    let mut i: usize = 0;
    while i < chars.len() && white_space(chars[i])
        invariant
            i <= chars.len(),
            chars@ == raw@,
            forall|j: int| 0 <= j < i ==> is_white_space(#[trigger] chars@[j]),
        decreases chars.len() - i,
    {
        i += 1;
    }
    if i == chars.len() {
        return Err(IdError::Empty { expected: label });
    }
    assert(!all_white(raw@));
    if raw.as_bytes().len() > ID_MAX_LEN {
        return Err(IdError::TooLong { found: raw.to_owned() });
    }
    // first '_'
    let mut k: usize = 0;
    while k < chars.len() && chars[k] != '_'
        invariant
            k <= chars.len(),
            chars@ == raw@,
            forall|j: int| 0 <= j < k ==> chars@[j] != '_',
        decreases chars.len() - k,
    {
        k += 1;
    }
    proof {
        lemma_index_of_char_first(raw@, '_', k as int);
    }
    if k == chars.len() {
        return Err(IdError::MissingSeparator { expected: prefix, found: raw.to_owned() });
    }
    let prefix_chars = chars_of(prefix);
    let mut head: Vec<char> = Vec::new();
    let mut j: usize = 0;
    while j < k
        invariant
            j <= k < chars.len(),
            head@ =~= chars@.take(j as int),
        decreases k - j,
    {
        head.push(chars[j]);
        j += 1;
    }
    if !chars_eq(head.as_slice(), prefix_chars.as_slice()) {
        return Err(
            IdError::WrongPrefix {
                expected: prefix,
                actual: string_of(head.as_slice()),
                found: raw.to_owned(),
            },
        );
    }
    // slug
    let slug_len = chars.len() - (k + 1);
    let mut ok = 0 < slug_len && slug_len <= ID_MAX_LEN;
    let mut m: usize = k + 1;
    while m < chars.len()
        invariant
            k + 1 <= m <= chars.len(),
            chars@ == raw@,
            ok == (0 < slug_len <= ID_MAX_LEN && forall|t: int|
                k + 1 <= t < m ==> is_slug_char(#[trigger] chars@[t])),
            slug_len == chars.len() - (k + 1),
        decreases chars.len() - m,
    {
        let c = chars[m];
        if !(('a' <= c && c <= 'z') || ('0' <= c && c <= '9') || c == '_') {
            ok = false;
        }
        m += 1;
    }
    proof {
        let slug = raw@.skip(k + 1);
        if ok {
            assert forall|t: int| 0 <= t < slug.len() implies is_slug_char(#[trigger] slug[t]) by {
                assert(slug[t] == chars@[t + k + 1]);
            }
        } else if 0 < slug_len <= ID_MAX_LEN {
            let t = choose|t: int| k + 1 <= t < chars.len() && !is_slug_char(#[trigger] chars@[t]);
            assert(slug[t - (k + 1)] == chars@[t]);
        }
    }
    if !ok {
        return Err(IdError::InvalidSlug { found: raw.to_owned() });
    }
    Ok(raw.to_owned())
}

// ---------------------------------------------------------------------------
// Kinds and typed ids
// ---------------------------------------------------------------------------

/// The entity kind of a typed identifier: its canonical prefix and label.
pub trait IdKind: Sized {
    /// A value of the (field-less) kind marker.
    fn instance() -> Self;

    /// The canonical prefix, as characters.
    spec fn spec_prefix() -> Seq<char>;

    /// The human-readable kind, as characters.
    spec fn spec_label() -> Seq<char>;

    /// Canonical prefix (`chr`, `mrf`, …).
    fn prefix() -> (p: &'static str)
        ensures
            p@ == Self::spec_prefix(),
    ;

    /// Human-readable entity kind used in error messages.
    fn label() -> (l: &'static str)
        ensures
            l@ == Self::spec_label(),
    ;

    /// Every prefix is three lower-case letters.
    proof fn lemma_prefix_well_formed()
        ensures
            valid_prefix(Self::spec_prefix()),
    ;
}

/// Shared behaviour of every stable identifier.
pub trait StableId: Sized {
    /// The encoded form (`<prefix>_<slug>`).
    spec fn encoded(&self) -> Seq<char>;

    /// Canonical prefix of the kind.
    spec fn kind_prefix() -> Seq<char>;

    /// Human-readable label of the kind.
    spec fn kind_label() -> Seq<char>;

    /// Borrows the encoded form.
    fn as_str(&self) -> (s: &str)
        ensures
            s@ == self.encoded(),
    ;

    /// Validates and constructs an identifier from its encoded form.
    fn parse(raw: &str) -> (r: Result<Self, IdError>)
        ensures
            match r {
                Ok(id) => parse_id_spec(raw@, encode_utf8(raw@).len(), Self::kind_prefix(), Self::kind_label())
                    == Ok::<Seq<char>, IdErrorView>(id.encoded()),
                Err(e) => parse_id_spec(raw@, encode_utf8(raw@).len(), Self::kind_prefix(), Self::kind_label())
                    == Err::<Seq<char>, IdErrorView>(e@),
            },
    ;

    /// Builds an identifier from an already-valid slug (or slugifies it);
    /// never fails.
    fn from_slug(slug: &str) -> (id: Self)
        ensures
            id.encoded() == encode_id(Self::kind_prefix(), slug@),
    ;

    /// Builds an identifier from an arbitrary label, deterministically.
    fn from_label(label: &str) -> (id: Self)
        ensures
            id.encoded() == encode_id(Self::kind_prefix(), label_slug(label@)),
    ;
}

/// A stable identifier of the entity kind `K`.
#[derive(Debug, Clone, PartialEq, Eq, PartialOrd, Ord, Hash)]
pub struct TypedId<K>(String, K);

impl<K: IdKind> View for TypedId<K> {
    type V = Seq<char>;

    closed spec fn view(&self) -> Seq<char> {
        self.0@
    }
}

impl<K: IdKind> StableId for TypedId<K> {
    open spec fn encoded(&self) -> Seq<char> {
        self@
    }

    open spec fn kind_prefix() -> Seq<char> {
        K::spec_prefix()
    }

    open spec fn kind_label() -> Seq<char> {
        K::spec_label()
    }

    fn as_str(&self) -> (s: &str) {
        self.0.as_str()
    }

    fn parse(raw: &str) -> (r: Result<Self, IdError>) {
        proof {
            K::lemma_prefix_well_formed();
        }
        match parse_encoded(raw, K::prefix(), K::label()) {
            Ok(s) => Ok(TypedId(s, K::instance())),
            Err(e) => Err(e),
        }
    }

    fn from_slug(slug: &str) -> (id: Self) {
        proof {
            K::lemma_prefix_well_formed();
        }
        TypedId(encode_from_slug(K::prefix(), slug), K::instance())
    }

    fn from_label(label: &str) -> (id: Self) {
        proof {
            K::lemma_prefix_well_formed();
        }
        let slugified = slugify(label);
        let slug = if slugified.as_str().unicode_len() == 0 {
            hex16_string(fnv1a64(label))
        } else {
            slugified
        };
        assert(slug@ == label_slug(label@));
        TypedId(encode_from_slug(K::prefix(), slug.as_str()), K::instance())
    }
}

impl<K: IdKind> TypedId<K> {
    /// Validates and constructs the identifier.
    pub fn parse(raw: &str) -> (r: Result<Self, IdError>)
        ensures
            parse_outcome(r) == parse_id_spec(raw@, encode_utf8(raw@).len(), K::spec_prefix(), K::spec_label()),
    {
        <Self as StableId>::parse(raw)
    }

    /// Adds the canonical prefix to `slug`, slugifying when needed; a valid
    /// slug that already reads `<prefix>_<rest>` is kept as it is.
    pub fn from_slug(slug: &str) -> (id: Self)
        ensures
            id@ == encode_id(K::spec_prefix(), slug@),
    {
        <Self as StableId>::from_slug(slug)
    }

    /// Derives the identifier from a human label (deterministic); a label
    /// without slug characters is named by the hash of its own bytes.
    pub fn from_label(label: &str) -> (id: Self)
        ensures
            id@ == encode_id(K::spec_prefix(), label_slug(label@)),
    {
        <Self as StableId>::from_label(label)
    }

    /// Borrows the encoded form.
    pub fn as_str(&self) -> (s: &str)
        ensures
            s@ == self@,
    {
        self.0.as_str()
    }

    /// Consumes the identifier, returning the encoded form.
    pub fn into_string(self) -> (s: String)
        ensures
            s@ == self@,
    {
        self.0
    }

    /// A copy of the identifier.
    pub fn duplicate(&self) -> (copy: Self)
        ensures
            copy@ == self@,
    {
        TypedId(self.0.clone(), K::instance())
    }

    /// `true` when both ids have the same encoded form.
    pub fn same_as(&self, other: &Self) -> (b: bool)
        ensures
            b == (self@ == other@),
    {
        self.0 == other.0
    }

    /// `true` when the encoded form starts with `<prefix>_`.
    pub fn has_canonical_prefix(&self) -> (b: bool)
        ensures
            b == (self@.len() >= 4 && self@.take(4) == K::spec_prefix() + seq!['_']),
    {
        proof {
            K::lemma_prefix_well_formed();
        }
        let chars = chars_of(self.0.as_str());
        let mut expected = chars_of(K::prefix());
        expected.push('_');
        if chars.len() < 4 {
            return false;
        }
        let mut head: Vec<char> = Vec::new();
        let mut i: usize = 0;
        while i < 4
            invariant
                i <= 4 <= chars.len(),
                head@ =~= chars@.take(i as int),
            decreases 4 - i,
        {
            head.push(chars[i]);
            i += 1;
        }
        assert(expected@ =~= K::spec_prefix() + seq!['_']);
        chars_eq(head.as_slice(), expected.as_slice())
    }
}

/// The slider id inside a morph id: what follows `mrf_`, or the whole id
/// when it does not start with `mrf_`.
pub open spec fn slider_part(id: Seq<char>) -> Seq<char> {
    if id.len() >= 4 && id.take(4) == seq!['m', 'r', 'f', '_'] {
        id.skip(4)
    } else {
        id
    }
}

impl TypedId<MorphKind> {
    /// Canonical morph id of a catalog slider: `head_width -> mrf_head_width`.
    pub fn for_slider(slider_id: &str) -> (id: Self)
        ensures
            id@ == encode_id(MorphKind::spec_prefix(), slider_id@),
    {
        Self::from_slug(slider_id)
    }

    /// Recovers the catalog slider id (`mrf_head_width -> head_width`); an id
    /// without the `mrf_` head is returned whole.
    pub fn slider_id(&self) -> (s: &str)
        ensures
            s@ == slider_part(self@),
    {
        let chars = chars_of(self.0.as_str());
        if chars.len() >= 4 && chars[0] == 'm' && chars[1] == 'r' && chars[2] == 'f' && chars[3]
            == '_' {
            assert(chars@.take(4) =~= seq!['m', 'r', 'f', '_']);
            self.0.as_str().substring_char(4, chars.len())
        } else {
            proof {
                if chars@.len() >= 4 && chars@.take(4) == seq!['m', 'r', 'f', '_'] {
                    assert(chars@.take(4)[0] == 'm');
                    assert(chars@.take(4)[1] == 'r');
                    assert(chars@.take(4)[2] == 'f');
                    assert(chars@.take(4)[3] == '_');
                }
            }
            self.0.as_str()
        }
    }
}

/// The content-addressed asset id of a URI: `ast_` and the FNV-1a-64 of the
/// UTF-8 bytes of the normalized URI, in 16 hexadecimal digits.
pub open spec fn asset_id_for(uri: Seq<char>) -> Seq<char> {
    seq!['a', 's', 't', '_'] + hex16(fnv1a64_of(encode_utf8(normalize_uri_spec(uri))))
}

impl TypedId<AssetKindMarker> {
    /// Content-addressed asset id: the same URI always maps to the same id.
    pub fn for_uri(uri: &str) -> (id: Self)
        ensures
            id@ == asset_id_for(uri@),
    {
        let normalized = normalize_uri(uri);
        let digest = fnv1a64(normalized.as_str());
        let hex = hex16_string(digest);
        proof {
            lemma_hex16_is_slug(digest);
            lemma_encode_valid_slug(AssetKindMarker::spec_prefix(), hex@);
        }
        let id = Self::from_slug(hex.as_str());
        assert(id@ =~= seq!['a', 's', 't', '_'] + hex16(digest));
        id
    }
}

/// `<prefix>_<slug>` for a literal slug that is already valid.
pub open spec fn canonical_id(prefix: Seq<char>, slug: Seq<char>) -> Seq<char> {
    prefix + seq!['_'] + slug
}

impl TypedId<CharacterKind> {
    /// Canonical character slot of a freshly created project (`chr_canonical`).
    pub fn canonical() -> (id: Self)
        ensures
            id@ == canonical_id(CharacterKind::spec_prefix(), "canonical"@),
    {
        proof {
            reveal_strlit("canonical");
            lemma_encode_valid_slug(CharacterKind::spec_prefix(), "canonical"@);
        }
        Self::from_slug("canonical")
    }
}

impl TypedId<SceneKind> {
    /// Canonical scene slot of a freshly created project (`scn_main`).
    pub fn canonical() -> (id: Self)
        ensures
            id@ == canonical_id(SceneKind::spec_prefix(), "main"@),
    {
        proof {
            reveal_strlit("main");
            lemma_encode_valid_slug(SceneKind::spec_prefix(), "main"@);
        }
        Self::from_slug("main")
    }
}

impl TypedId<CameraKind> {
    /// Canonical viewport camera slot (`cam_viewport`).
    pub fn canonical() -> (id: Self)
        ensures
            id@ == canonical_id(CameraKind::spec_prefix(), "viewport"@),
    {
        proof {
            reveal_strlit("viewport");
            lemma_encode_valid_slug(CameraKind::spec_prefix(), "viewport"@);
        }
        Self::from_slug("viewport")
    }
}

impl TypedId<LightKind> {
    /// Canonical key light slot (`lgt_key`).
    pub fn canonical_key() -> (id: Self)
        ensures
            id@ == canonical_id(LightKind::spec_prefix(), "key"@),
    {
        proof {
            reveal_strlit("key");
            lemma_encode_valid_slug(LightKind::spec_prefix(), "key"@);
        }
        Self::from_slug("key")
    }
}

impl TypedId<MaterialKind> {
    /// Canonical default anime material slot (`mat_default_anime`).
    pub fn canonical_default() -> (id: Self)
        ensures
            id@ == canonical_id(MaterialKind::spec_prefix(), "default_anime"@),
    {
        proof {
            reveal_strlit("default_anime");
            lemma_encode_valid_slug(MaterialKind::spec_prefix(), "default_anime"@);
        }
        Self::from_slug("default_anime")
    }
}

impl TypedId<NodeIdKind> {
    /// Canonical node holding the character mesh (`nod_character_base`).
    pub fn canonical_character() -> (id: Self)
        ensures
            id@ == canonical_id(NodeIdKind::spec_prefix(), "character_base"@),
    {
        proof {
            reveal_strlit("character_base");
            lemma_encode_valid_slug(NodeIdKind::spec_prefix(), "character_base"@);
        }
        Self::from_slug("character_base")
    }
}

/// Marker of project ids (`prj_<slug>`).
#[derive(Debug, Clone, Copy, PartialEq, Eq, PartialOrd, Ord, Hash)]
pub struct ProjectKind;

/// Marker of character ids (`chr_<slug>`).
#[derive(Debug, Clone, Copy, PartialEq, Eq, PartialOrd, Ord, Hash)]
pub struct CharacterKind;

/// Marker of morph ids (`mrf_<slug>`).
#[derive(Debug, Clone, Copy, PartialEq, Eq, PartialOrd, Ord, Hash)]
pub struct MorphKind;

/// Marker of scene ids (`scn_<slug>`).
#[derive(Debug, Clone, Copy, PartialEq, Eq, PartialOrd, Ord, Hash)]
pub struct SceneKind;

/// Marker of scene node ids (`nod_<slug>`).
#[derive(Debug, Clone, Copy, PartialEq, Eq, PartialOrd, Ord, Hash)]
pub struct NodeIdKind;

/// Marker of material ids (`mat_<slug>`).
#[derive(Debug, Clone, Copy, PartialEq, Eq, PartialOrd, Ord, Hash)]
pub struct MaterialKind;

/// Marker of asset ids (`ast_<slug>`).
#[derive(Debug, Clone, Copy, PartialEq, Eq, PartialOrd, Ord, Hash)]
pub struct AssetKindMarker;

/// Marker of camera ids (`cam_<slug>`).
#[derive(Debug, Clone, Copy, PartialEq, Eq, PartialOrd, Ord, Hash)]
pub struct CameraKind;

/// Marker of light ids (`lgt_<slug>`).
#[derive(Debug, Clone, Copy, PartialEq, Eq, PartialOrd, Ord, Hash)]
pub struct LightKind;

/// Marker of animation clip ids (`ani_<slug>`).
#[derive(Debug, Clone, Copy, PartialEq, Eq, PartialOrd, Ord, Hash)]
pub struct AnimationClipKind;

/// Stable identifier of a saved project (`prj_<slug>`).
pub type ProjectId = TypedId<ProjectKind>;

/// Stable identifier of the character authored in the project.
pub type CharacterId = TypedId<CharacterKind>;

/// Stable identifier of a canonical morph slider target.
pub type MorphId = TypedId<MorphKind>;

/// Stable identifier of a scene.
pub type SceneId = TypedId<SceneKind>;

/// Stable identifier of a scene node.
pub type NodeId = TypedId<NodeIdKind>;

/// Stable identifier of a material.
pub type MaterialId = TypedId<MaterialKind>;

/// Stable identifier of an imported/referenced asset.
pub type AssetId = TypedId<AssetKindMarker>;

/// Stable identifier of a project camera.
pub type CameraId = TypedId<CameraKind>;

/// Stable identifier of a light.
pub type LightId = TypedId<LightKind>;

/// Stable identifier of an animation clip.
pub type AnimationClipId = TypedId<AnimationClipKind>;

impl IdKind for ProjectKind {
    fn instance() -> Self {
        ProjectKind
    }

    open spec fn spec_prefix() -> Seq<char> {
        seq!['p', 'r', 'j']
    }

    open spec fn spec_label() -> Seq<char> {
        "project"@
    }

    fn prefix() -> (p: &'static str) {
        proof {
            reveal_strlit("prj");
        }
        PREFIX_PROJECT
    }

    fn label() -> (l: &'static str) {
        "project"
    }

    proof fn lemma_prefix_well_formed() {
    }
}

impl IdKind for CharacterKind {
    fn instance() -> Self {
        CharacterKind
    }

    open spec fn spec_prefix() -> Seq<char> {
        seq!['c', 'h', 'r']
    }

    open spec fn spec_label() -> Seq<char> {
        "character"@
    }

    fn prefix() -> (p: &'static str) {
        proof {
            reveal_strlit("chr");
        }
        PREFIX_CHARACTER
    }

    fn label() -> (l: &'static str) {
        "character"
    }

    proof fn lemma_prefix_well_formed() {
    }
}

impl IdKind for MorphKind {
    fn instance() -> Self {
        MorphKind
    }

    open spec fn spec_prefix() -> Seq<char> {
        seq!['m', 'r', 'f']
    }

    open spec fn spec_label() -> Seq<char> {
        "morph"@
    }

    fn prefix() -> (p: &'static str) {
        proof {
            reveal_strlit("mrf");
        }
        PREFIX_MORPH
    }

    fn label() -> (l: &'static str) {
        "morph"
    }

    proof fn lemma_prefix_well_formed() {
    }
}

impl IdKind for SceneKind {
    fn instance() -> Self {
        SceneKind
    }

    open spec fn spec_prefix() -> Seq<char> {
        seq!['s', 'c', 'n']
    }

    open spec fn spec_label() -> Seq<char> {
        "scene"@
    }

    fn prefix() -> (p: &'static str) {
        proof {
            reveal_strlit("scn");
        }
        PREFIX_SCENE
    }

    fn label() -> (l: &'static str) {
        "scene"
    }

    proof fn lemma_prefix_well_formed() {
    }
}

impl IdKind for NodeIdKind {
    fn instance() -> Self {
        NodeIdKind
    }

    open spec fn spec_prefix() -> Seq<char> {
        seq!['n', 'o', 'd']
    }

    open spec fn spec_label() -> Seq<char> {
        "scene node"@
    }

    fn prefix() -> (p: &'static str) {
        proof {
            reveal_strlit("nod");
        }
        PREFIX_NODE
    }

    fn label() -> (l: &'static str) {
        "scene node"
    }

    proof fn lemma_prefix_well_formed() {
    }
}

impl IdKind for MaterialKind {
    fn instance() -> Self {
        MaterialKind
    }

    open spec fn spec_prefix() -> Seq<char> {
        seq!['m', 'a', 't']
    }

    open spec fn spec_label() -> Seq<char> {
        "material"@
    }

    fn prefix() -> (p: &'static str) {
        proof {
            reveal_strlit("mat");
        }
        PREFIX_MATERIAL
    }

    fn label() -> (l: &'static str) {
        "material"
    }

    proof fn lemma_prefix_well_formed() {
    }
}

impl IdKind for AssetKindMarker {
    fn instance() -> Self {
        AssetKindMarker
    }

    open spec fn spec_prefix() -> Seq<char> {
        seq!['a', 's', 't']
    }

    open spec fn spec_label() -> Seq<char> {
        "asset"@
    }

    fn prefix() -> (p: &'static str) {
        proof {
            reveal_strlit("ast");
        }
        PREFIX_ASSET
    }

    fn label() -> (l: &'static str) {
        "asset"
    }

    proof fn lemma_prefix_well_formed() {
    }
}

impl IdKind for CameraKind {
    fn instance() -> Self {
        CameraKind
    }

    open spec fn spec_prefix() -> Seq<char> {
        seq!['c', 'a', 'm']
    }

    open spec fn spec_label() -> Seq<char> {
        "camera"@
    }

    fn prefix() -> (p: &'static str) {
        proof {
            reveal_strlit("cam");
        }
        PREFIX_CAMERA
    }

    fn label() -> (l: &'static str) {
        "camera"
    }

    proof fn lemma_prefix_well_formed() {
    }
}

impl IdKind for LightKind {
    fn instance() -> Self {
        LightKind
    }

    open spec fn spec_prefix() -> Seq<char> {
        seq!['l', 'g', 't']
    }

    open spec fn spec_label() -> Seq<char> {
        "light"@
    }

    fn prefix() -> (p: &'static str) {
        proof {
            reveal_strlit("lgt");
        }
        PREFIX_LIGHT
    }

    fn label() -> (l: &'static str) {
        "light"
    }

    proof fn lemma_prefix_well_formed() {
    }
}

impl IdKind for AnimationClipKind {
    fn instance() -> Self {
        AnimationClipKind
    }

    open spec fn spec_prefix() -> Seq<char> {
        seq!['a', 'n', 'i']
    }

    open spec fn spec_label() -> Seq<char> {
        "animation clip"@
    }

    fn prefix() -> (p: &'static str) {
        proof {
            reveal_strlit("ani");
        }
        PREFIX_ANIMATION
    }

    fn label() -> (l: &'static str) {
        "animation clip"
    }

    proof fn lemma_prefix_well_formed() {
    }
}

} // verus!
