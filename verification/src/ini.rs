//! The document model: what an INI file says, once it has been parsed.
//!
//! An [`Ini`] is a set of named sections plus a set of defaults every section inherits.
//! A [`Section`] maps an option name to the [`Entry`] that last defined it, in insertion
//! order. Option names are compared case-insensitively via `str::to_lowercase`; section
//! names are compared exactly.

use crate::index_map::{
    inserted, key_index, keys_of, lemma_key_index, lemma_key_index_keys_only, lemma_keys_inserted,
    lemma_lookup_inserted, lemma_lookup_removed, lookup, option_entries, option_map_clear,
    option_map_get_full, option_map_get_index, option_map_get_mut, option_map_insert,
    option_map_len, option_map_new, option_map_shift_remove, removed, section_entries,
    section_map_clear, section_map_get_full, section_map_get_index, section_map_get_mut,
    section_map_insert, section_map_len, section_map_new, section_map_shift_remove, unique_keys,
};
use crate::problem::join;
use crate::span::{Span, Spanned};
use indexmap::IndexMap;
use std::borrow::Cow;
use vstd::prelude::*;
use vstd::std_specs::vec::into_iter_elts;
use vstd::string::*;

verus! {

/// What `str::to_lowercase` returns for a string: its lowercase equivalent under the
/// Unicode case mapping.
pub uninterp spec fn lowercase(s: Seq<char>) -> Seq<char>;

/// The characters `char::to_lowercase` yields for one character.
pub uninterp spec fn char_lowercase(c: char) -> Seq<char>;

/// `str::to_lowercase`: the lowercase equivalent of `s`. Also claimed, as `std` documents
/// lowercasing character by character: a string every character of which
/// `char::to_lowercase` yields unchanged comes back unchanged.
#[verifier::external_body]
fn str_to_lowercase(s: &str) -> (res: String)
    ensures
        res@ == lowercase(s@),
        (forall|i: int| 0 <= i < s@.len() ==> #[trigger] char_lowercase(s@[i]) == seq![s@[i]]) ==> res@ == s@,
{
    s.to_lowercase()
}

/// `char::to_lowercase`, collected into a string.
#[verifier::external_body]
fn char_to_lowercase(c: char) -> (res: String)
    ensures
        res@ == char_lowercase(c),
{
    c.to_lowercase().collect()
}

/// `c` is its own lowercase form: an ASCII character other than an uppercase letter, or a
/// character `char::to_lowercase` yields unchanged.
pub open spec fn own_lowercase(c: char) -> bool {
    ||| ((c as u32) < 128 && !('A' <= c && c <= 'Z'))
    ||| char_lowercase(c) == seq![c]
}

/// Every character of `cs` is its own lowercase form.
pub open spec fn is_lowercase_fixed(cs: Seq<char>) -> bool {
    forall|i: int| 0 <= i < cs.len() ==> #[trigger] own_lowercase(cs[i])
}

/// The characters of `cs` that are their own lowercase form, in order.
pub open spec fn own_lowercase_only(cs: Seq<char>) -> Seq<char> {
    cs.filter(|c: char| own_lowercase(c))
}

/// An option name as it is compared: unchanged when every character is already its own
/// lowercase form; otherwise `str::to_lowercase` of it, when every character of that is its
/// own lowercase form; and otherwise the characters of `str::to_lowercase` of it that are.
pub open spec fn normalized(cs: Seq<char>) -> Seq<char> {
    if is_lowercase_fixed(cs) {
        cs
    } else if is_lowercase_fixed(lowercase(cs)) {
        lowercase(cs)
    } else {
        own_lowercase_only(lowercase(cs))
    }
}

/// Keeping only the characters that are their own lowercase form gives a name whose every
/// character is.
proof fn lemma_own_lowercase_only(cs: Seq<char>)
    ensures
        is_lowercase_fixed(own_lowercase_only(cs)),
{
    broadcast use vstd::seq_lib::group_filter_ensures;
    let kept = own_lowercase_only(cs);
    assert forall|i: int| 0 <= i < kept.len() implies #[trigger] own_lowercase(kept[i]) by {
        cs.lemma_filter_pred(|c: char| own_lowercase(c), i);
    }
}

/// Every name stored in `entries` is its own normalized form.
pub open spec fn names_normalized(entries: Seq<(Seq<char>, EntryModel)>) -> bool {
    forall|i: int| 0 <= i < entries.len() ==> normalized((#[trigger] entries[i]).0) == entries[i].0
}

/// No option name is stored twice, and every stored name is its own normalized form.
pub open spec fn section_wf(section: SectionModel) -> bool {
    &&& unique_keys(section.entries)
    &&& names_normalized(section.entries)
}

/// Setting a normalized name, or removing any name, keeps a section well formed.
pub proof fn lemma_section_wf_kept(section: SectionModel, key: Seq<char>, entry: EntryModel)
    requires
        section_wf(section),
    ensures
        normalized(key) == key ==> section_wf(
            SectionModel { entries: inserted(section.entries, key, entry), header: section.header },
        ),
        section_wf(SectionModel { entries: removed(section.entries, key), header: section.header }),
{
    crate::index_map::lemma_unique_preserved(section.entries, key, entry);
    lemma_key_index(section.entries, key);
    let i = key_index(section.entries, key);
    let ins = inserted(section.entries, key, entry);
    assert forall|j: int| 0 <= j < ins.len() && normalized(key) == key implies normalized((#[trigger] ins[j]).0) == ins[j].0 by {
        if j < section.entries.len() {
            assert(ins[j].0 == section.entries[j].0);
        }
    }
    let rem = removed(section.entries, key);
    assert forall|j: int| 0 <= j < rem.len() implies normalized((#[trigger] rem[j]).0) == rem[j].0 by {
        if i >= 0 {
            let from = if j < i { j } else { j + 1 };
            assert(rem[j] == section.entries[from]);
        }
    }
}

/// Whether `c` is its own lowercase form: known without asking for an ASCII character other
/// than an uppercase letter, and asked of `char::to_lowercase` for any other.
fn is_own_lowercase(c: char) -> (res: bool)
    ensures
        res == own_lowercase(c),
{
    if (c as u32) < 128 && !('A' <= c && c <= 'Z') {
        return true;
    }
    let lowered = char_to_lowercase(c);
    let lowered = lowered.as_str();
    proof {
        if char_lowercase(c) == seq![c] {
            assert(lowered@.len() == 1);
        }
    }
    let same = lowered.unicode_len() == 1 && lowered.get_char(0) == c;
    proof {
        if same {
            assert(lowered@ =~= seq![c]);
        }
    }
    same
}

/// Whether every character of `s` is its own lowercase form.
fn all_own_lowercase(s: &str) -> (res: bool)
    ensures
        res == is_lowercase_fixed(s@),
{
    let n = s.unicode_len();
    let mut i: usize = 0;
    while i < n
        invariant
            n == s@.len(),
            i <= n,
            forall|j: int| 0 <= j < i ==> #[trigger] own_lowercase(s@[j]),
        decreases n - i,
    {
        if !is_own_lowercase(s.get_char(i)) {
            return false;
        }
        i += 1;
    }
    true
}

/// The characters of `s` that are their own lowercase form, in order.
fn keep_own_lowercase(s: &str) -> (res: String)
    ensures
        res@ == own_lowercase_only(s@),
{
    let n = s.unicode_len();
    let mut out = String::new();
    let mut i: usize = 0;
    while i < n
        invariant
            n == s@.len(),
            i <= n,
            out@ == own_lowercase_only(s@.take(i as int)),
        decreases n - i,
    {
        let keep = is_own_lowercase(s.get_char(i));
        proof {
            reveal_with_fuel(Seq::<char>::filter, 1);
            assert(s@.take(i + 1).drop_last() =~= s@.take(i as int));
            assert(s@.take(i + 1).last() == s@[i as int]);
        }
        if keep {
            let piece = s.substring_char(i, i + 1);
            proof {
                assert(piece@ =~= seq![s@[i as int]]);
            }
            out.append(piece);
        }
        proof {
            assert(out@ =~= own_lowercase_only(s@.take(i + 1)));
        }
        i += 1;
    }
    proof {
        assert(s@.take(n as int) =~= s@);
    }
    out
}

/// Normalizes an option name for the case-insensitive comparison INI uses.
///
/// Borrows when `raw` is already lowercase, so a lookup with an already-normalized key
/// allocates nothing: any name it borrows is one every character of which is its own
/// lowercase form. Otherwise the name is lowercased with `str::to_lowercase`; should a
/// character of that not be its own lowercase form, it is left out, so that what comes back
/// is always its own normalized form.
pub fn normalize(raw: &str) -> (res: Cow<'_, str>)
    ensures
        res@ == normalized(raw@),
        (res matches Cow::Borrowed(_)) <==> is_lowercase_fixed(raw@),
        normalized(res@) == res@,
{
    if all_own_lowercase(raw) {
        return Cow::Borrowed(raw);
    }
    let lowered = str_to_lowercase(raw);
    if all_own_lowercase(lowered.as_str()) {
        Cow::Owned(lowered)
    } else {
        let kept = keep_own_lowercase(lowered.as_str());
        proof {
            lemma_own_lowercase_only(lowered@);
        }
        Cow::Owned(kept)
    }
}

/// A normalized name as an owned string.
fn normalize_owned(raw: &str) -> (res: String)
    ensures
        res@ == normalized(raw@),
        normalized(res@) == res@,
{
    match normalize(raw) {
        Cow::Borrowed(name) => String::from_str(name),
        Cow::Owned(name) => name,
    }
}

/// The error returned when a value cannot be read as a boolean.
#[derive(Debug, Clone, PartialEq, Eq)]
pub struct InvalidBooleanError(pub String);

impl InvalidBooleanError {
    /// The message: the rejected value, quoted.
    pub fn to_string(&self) -> (res: String)
        ensures
            res@ == "invalid boolean: "@ + debug_text(self.0@),
    {
        let mut message = String::from_str("invalid boolean: ");
        let value = debug_str(self.0.as_str());
        message.append(value.as_str());
        message
    }
}

/// `cs` with every ASCII uppercase letter replaced by its lowercase form.
pub open spec fn ascii_lowercase(cs: Seq<char>) -> Seq<char> {
    cs.map_values(|c: char| if 'A' <= c && c <= 'Z' { ((c as u32) + 32) as char } else { c })
}

/// The string with every ASCII uppercase letter replaced by its lowercase form: what
/// `str::to_ascii_lowercase` returns.
fn str_to_ascii_lowercase(s: &str) -> (res: String)
    ensures
        res@ == ascii_lowercase(s@),
{
    let letters = "abcdefghijklmnopqrstuvwxyz";
    proof {
        reveal_strlit("abcdefghijklmnopqrstuvwxyz");
    }
    let n = s.unicode_len();
    let mut out = String::new();
    let mut i: usize = 0;
    while i < n
        invariant
            n == s@.len(),
            i <= n,
            letters@ == "abcdefghijklmnopqrstuvwxyz"@,
            out@ == ascii_lowercase(s@).take(i as int),
        decreases n - i,
    {
        let c = s.get_char(i);
        let piece = if 'A' <= c && c <= 'Z' {
            let k = ((c as u32) - ('A' as u32)) as usize;
            proof {
                reveal_strlit("abcdefghijklmnopqrstuvwxyz");
                assert(letters@.len() == 26);
                assert(letters@[k as int] == (((c as u32) + 32) as char)) by {
                    assert(k < 26);
                    assert(k == 0 || k == 1 || k == 2 || k == 3 || k == 4 || k == 5 || k == 6 || k == 7
                        || k == 8 || k == 9 || k == 10 || k == 11 || k == 12 || k == 13 || k == 14
                        || k == 15 || k == 16 || k == 17 || k == 18 || k == 19 || k == 20 || k == 21
                        || k == 22 || k == 23 || k == 24 || k == 25);
                }
            }
            letters.substring_char(k, k + 1)
        } else {
            s.substring_char(i, i + 1)
        };
        proof {
            assert(piece@ =~= seq![ascii_lowercase(s@)[i as int]]);
            assert(ascii_lowercase(s@).take(i + 1) =~= ascii_lowercase(s@).take(i as int).push(ascii_lowercase(s@)[i as int]));
        }
        out.append(piece);
        i += 1;
    }
    proof {
        assert(ascii_lowercase(s@).take(n as int) =~= ascii_lowercase(s@));
    }
    out
}

/// The boolean an INI value spells, if it spells one: `1`, `yes`, `true` and `on` are
/// true, `0`, `no`, `false` and `off` are false, compared after ASCII lowercasing.
pub open spec fn boolean_of(value: Seq<char>) -> Option<bool> {
    let v = ascii_lowercase(value);
    if v == "1"@ || v == "yes"@ || v == "true"@ || v == "on"@ {
        Some(true)
    } else if v == "0"@ || v == "no"@ || v == "false"@ || v == "off"@ {
        Some(false)
    } else {
        None
    }
}

/// Whether two strings hold the same characters.
pub(crate) fn same_text(a: &str, b: &str) -> (res: bool)
    ensures
        res == (a@ == b@),
{
    let x = a.as_bytes();
    let y = b.as_bytes();
    proof {
        crate::text::lemma_roundtrip(a@);
        crate::text::lemma_roundtrip(b@);
    }
    if x.len() != y.len() {
        return false;
    }
    let mut i: usize = 0;
    while i < x.len()
        invariant
            x@ == a.spec_bytes(),
            y@ == b.spec_bytes(),
            x@.len() == y@.len(),
            i <= x@.len(),
            forall|j: int| 0 <= j < i ==> x@[j] == y@[j],
        decreases x@.len() - i,
    {
        if x[i] != y[i] {
            assert(x@ == vstd::utf8::encode_utf8(a@));
            assert(y@ == vstd::utf8::encode_utf8(b@));
            assert(a@ != b@ || x@ == y@);
            return false;
        }
        i += 1;
    }
    assert(x@ =~= y@);
    true
}

/// Reads a boolean from the spellings INI files use for one.
///
/// # Errors
/// When the given value is not a valid boolean; the error carries the lowercased value.
pub fn convert_to_boolean(value: &str) -> (res: Result<bool, InvalidBooleanError>)
    ensures
        match res {
            Ok(b) => boolean_of(value@) == Some(b),
            Err(InvalidBooleanError(v)) => boolean_of(value@) is None && v@ == ascii_lowercase(value@),
        },
{
    let lowered = str_to_ascii_lowercase(value);
    let v = lowered.as_str();
    if same_text(v, "1") || same_text(v, "yes") || same_text(v, "true") || same_text(v, "on") {
        Ok(true)
    } else if same_text(v, "0") || same_text(v, "no") || same_text(v, "false") || same_text(v, "off") {
        Ok(false)
    } else {
        Err(InvalidBooleanError(lowered))
    }
}

#[verifier::external_type_specification]
#[verifier::external_body]
pub struct ExParseIntError(std::num::ParseIntError);

/// The value of a string of ASCII decimal digits.
pub open spec fn digits_value(cs: Seq<char>) -> int
    decreases cs.len(),
{
    if cs.len() == 0 {
        0
    } else {
        digits_value(cs.drop_last()) * 10 + ((cs.last() as u32) - ('0' as u32))
    }
}

/// The `i32` that `cs` spells in decimal: an optional `+` or `-`, then at least one ASCII
/// digit and nothing else, with a value in range.
pub open spec fn decimal_i32(cs: Seq<char>) -> Option<i32> {
    let negative = cs.len() > 0 && cs[0] == '-';
    let digits = if cs.len() > 0 && (cs[0] == '-' || cs[0] == '+') {
        cs.drop_first()
    } else {
        cs
    };
    let magnitude = digits_value(digits);
    let value = if negative {
        -magnitude
    } else {
        magnitude
    };
    if digits.len() == 0 || !(forall|i: int| 0 <= i < digits.len() ==> '0' <= #[trigger] digits[i] && digits[i] <= '9') {
        None
    } else if i32::MIN <= value && value <= i32::MAX {
        Some(value as i32)
    } else {
        None
    }
}

/// `str::parse::<i32>`: the value `s` spells in decimal, or an error when it spells none
/// or one out of range.
#[verifier::external_body]
fn parse_i32(s: &str) -> (res: Result<i32, std::num::ParseIntError>)
    ensures
        match res {
            Ok(v) => decimal_i32(s@) == Some(v),
            Err(_) => decimal_i32(s@) is None,
        },
{
    s.parse::<i32>()
}

/// One option occurrence: the name as it was written, and its value.
///
/// Both spans describe the *same* occurrence, because an entry is replaced whole when an
/// option is defined twice — a key span and a value span can never be taken from different
/// lines.
#[derive(Debug, Clone, PartialEq, Eq)]
pub struct Entry {
    /// The option name exactly as written, with the span of this occurrence.
    pub key: Spanned<String>,
    /// The option value, with the span of this occurrence.
    pub value: Spanned<String>,
}

/// An [`Entry`] with its strings taken as characters.
pub struct EntryModel {
    pub key: Spanned<Seq<char>>,
    pub value: Spanned<Seq<char>>,
}

impl View for Entry {
    type V = EntryModel;

    open spec fn view(&self) -> EntryModel {
        EntryModel { key: self.key@, value: self.value@ }
    }
}

impl Entry {
    /// The value as a string slice.
    pub fn as_str(&self) -> (res: &str)
        ensures
            res@ == self.value.inner@,
    {
        self.value.as_str()
    }

    /// The value parsed as an `i32`, keeping the span it was read from.
    ///
    /// # Errors
    /// When the value is not a decimal integer, or does not fit in an `i32`.
    pub fn as_int(&self) -> (res: Result<Spanned<i32>, std::num::ParseIntError>)
        ensures
            match res {
                Ok(v) => decimal_i32(self.value.inner@) == Some(v.inner) && v.span == self.value.span,
                Err(_) => decimal_i32(self.value.inner@) is None,
            },
    {
        let parsed = parse_i32(self.value.as_str())?;
        Ok(Spanned { inner: parsed, span: self.value.span })
    }

    /// The value parsed as a boolean, keeping the span it was read from.
    ///
    /// # Errors
    /// When the value is not a valid boolean.
    pub fn as_bool(&self) -> (res: Result<Spanned<bool>, InvalidBooleanError>)
        ensures
            match res {
                Ok(v) => boolean_of(self.value.inner@) == Some(v.inner) && v.span == self.value.span,
                Err(InvalidBooleanError(v)) => boolean_of(self.value.inner@) is None && v@
                    == ascii_lowercase(self.value.inner@),
            },
    {
        let parsed = convert_to_boolean(self.value.as_str())?;
        Ok(Spanned { inner: parsed, span: self.value.span })
    }
}

/// A [`Section`]: its entries in order under their normalized names, and its header span.
pub struct SectionModel {
    pub entries: Seq<(Seq<char>, EntryModel)>,
    pub header: Option<Span>,
}

/// The entry `key` stores `value` under: a new entry for this occurrence.
pub open spec fn entry_of(key: Spanned<Seq<char>>, value: Spanned<Seq<char>>) -> EntryModel {
    EntryModel { key, value }
}

/// `section` with `key` defined as `value`, replacing any previous occurrence wholesale in
/// its position.
pub open spec fn section_with(section: SectionModel, key: Spanned<Seq<char>>, value: Spanned<Seq<char>>) -> SectionModel {
    SectionModel {
        entries: inserted(section.entries, normalized(key.inner), entry_of(key, value)),
        header: section.header,
    }
}

/// One section: an insertion-ordered map from case-insensitive option name to entry.
///
/// The map keys are always normalized, because `entries` is private and [`Section::insert`]
/// is the only way to put anything in it. The name as the author wrote it is kept on
/// [`Entry::key`], so nothing is lost by normalizing.
#[derive(Debug, Clone, PartialEq, Eq)]
pub struct Section {
    entries: IndexMap<String, Entry>,
    header: Option<Span>,
}

impl View for Section {
    type V = SectionModel;

    closed spec fn view(&self) -> SectionModel {
        SectionModel { entries: option_entries(self.entries), header: self.header }
    }
}

impl Default for Section {
    /// A section with no options and no header.
    fn default() -> (res: Self)
        ensures
            res@.entries == Seq::<(Seq<char>, EntryModel)>::empty(),
            res@.header is None,
    {
        Section { entries: option_map_new(), header: None }
    }
}

impl Section {
    /// No option name is stored twice, and every stored name is its own normalized form.
    pub open spec fn wf(&self) -> bool {
        section_wf(self@)
    }

    /// The span of the `[name]` header that introduced this section, or `None` when the
    /// section did not come from source text.
    pub fn header_span(&self) -> (res: Option<Span>)
        ensures
            res == self@.header,
    {
        self.header
    }

    /// The position, stored name and entry of `key`, compared case-insensitively.
    fn find(&self, key: &str) -> (res: Option<(usize, &String, &Entry)>)
        ensures
            match res {
                Some((i, k, e)) => {
                    &&& i == key_index(self@.entries, normalized(key@))
                    &&& k@ == self@.entries[i as int].0
                    &&& e@ == self@.entries[i as int].1
                },
                None => key_index(self@.entries, normalized(key@)) < 0,
            },
    {
        match normalize(key) {
            Cow::Borrowed(name) => option_map_get_full(&self.entries, name),
            Cow::Owned(name) => option_map_get_full(&self.entries, name.as_str()),
        }
    }

    /// The entry for `key`, compared case-insensitively.
    pub fn get(&self, key: &str) -> (res: Option<&Entry>)
        ensures
            match res {
                Some(e) => lookup(self@.entries, normalized(key@)) == Some(e@),
                None => lookup(self@.entries, normalized(key@)) is None,
            },
    {
        match self.find(key) {
            Some((_, _, entry)) => Some(entry),
            None => None,
        }
    }

    /// The entry for `key`, compared case-insensitively, for in-place modification.
    ///
    /// Writing a different name into [`Entry::key`] does not re-key the section; the entry
    /// stays reachable under the name it was inserted with.
    pub fn get_mut(&mut self, key: &str) -> (res: Option<&mut Entry>)
        ensures
            match res {
                Some(e) => {
                    let i = key_index(old(self)@.entries, normalized(key@));
                    &&& i >= 0
                    &&& e@ == old(self)@.entries[i].1
                    &&& final(self)@ == SectionModel {
                        entries: old(self)@.entries.update(i, (old(self)@.entries[i].0, final(e)@)),
                        header: old(self)@.header,
                    }
                },
                None => {
                    &&& lookup(old(self)@.entries, normalized(key@)) is None
                    &&& final(self)@ == old(self)@
                },
            },
    {
        match normalize(key) {
            Cow::Borrowed(name) => option_map_get_mut(&mut self.entries, name),
            Cow::Owned(name) => option_map_get_mut(&mut self.entries, name.as_str()),
        }
    }

    /// Whether an entry for `key` exists. Defined as [`Section::get`] being `Some`.
    pub fn contains(&self, key: &str) -> (res: bool)
        ensures
            res == lookup(self@.entries, normalized(key@)) is Some,
    {
        self.get(key).is_some()
    }

    /// Defines `key` as `value`, replacing any previous occurrence wholesale — key and
    /// value together — and returning it.
    ///
    /// A replaced entry keeps the position of the occurrence it replaces: redefining an
    /// option does not move it to the end of the section.
    pub fn insert(&mut self, key: Spanned<String>, value: Spanned<String>) -> (res: Option<Entry>)
        ensures
            final(self)@ == section_with(old(self)@, key@, value@),
            match res {
                Some(e) => lookup(old(self)@.entries, normalized(key.inner@)) == Some(e@),
                None => lookup(old(self)@.entries, normalized(key.inner@)) is None,
            },
            old(self).wf() ==> final(self).wf(),
            normalized(normalized(key.inner@)) == normalized(key.inner@),
    {
        let normalized = normalize_owned(key.as_str());
        let ghost entry = entry_of(key@, value@);
        proof {
            if self.wf() {
                lemma_section_wf_kept(self@, normalized@, entry);
            }
        }
        option_map_insert(&mut self.entries, normalized, Entry { key, value })
    }

    /// Removes and returns the entry for `key`, shifting later entries down to preserve
    /// insertion order.
    pub fn remove(&mut self, key: &str) -> (res: Option<Entry>)
        ensures
            final(self)@ == (SectionModel {
                entries: removed(old(self)@.entries, normalized(key@)),
                header: old(self)@.header,
            }),
            match res {
                Some(e) => lookup(old(self)@.entries, normalized(key@)) == Some(e@),
                None => lookup(old(self)@.entries, normalized(key@)) is None,
            },
            old(self).wf() ==> final(self).wf(),
    {
        let name = normalize(key);
        proof {
            if self.wf() {
                lemma_section_wf_kept(self@, name@, arbitrary());
            }
        }
        match name {
            Cow::Borrowed(name) => option_map_shift_remove(&mut self.entries, name),
            Cow::Owned(name) => option_map_shift_remove(&mut self.entries, name.as_str()),
        }
    }

    /// The stored names and entries, in insertion order.
    pub fn pairs(&self) -> (res: Vec<(&str, &Entry)>)
        ensures
            res@.len() == self@.entries.len(),
            forall|i: int| 0 <= i < res@.len() ==> (#[trigger] res@[i]).0@ == self@.entries[i].0
                && res@[i].1@ == self@.entries[i].1,
    {
        let n = option_map_len(&self.entries);
        let mut out: Vec<(&str, &Entry)> = Vec::new();
        let mut i: usize = 0;
        while i < n
            invariant
                n == self@.entries.len(),
                i <= n,
                out@.len() == i,
                forall|j: int| 0 <= j < i ==> (#[trigger] out@[j]).0@ == self@.entries[j].0
                    && out@[j].1@ == self@.entries[j].1,
            decreases n - i,
        {
            match option_map_get_index(&self.entries, i) {
                Some((key, entry)) => out.push((key.as_str(), entry)),
                None => {},
            }
            i += 1;
        }
        out
    }

    /// Yields `(normalized_key, entry)` in insertion order.
    pub fn iter(&self) -> (res: std::vec::IntoIter<(&str, &Entry)>)
        ensures
            into_iter_elts(res).len() == self@.entries.len(),
            forall|i: int| 0 <= i < into_iter_elts(res).len() ==> (#[trigger] into_iter_elts(res)[i]).0@
                == self@.entries[i].0 && into_iter_elts(res)[i].1@ == self@.entries[i].1,
    {
        let pairs = self.pairs();
        let ghost elements = pairs@;
        let res = pairs.into_iter();
        assert(into_iter_elts(res) == elements);
        res
    }

    /// The normalized option names in insertion order.
    pub fn key_list(&self) -> (res: Vec<&str>)
        ensures
            res@.len() == self@.entries.len(),
            forall|i: int| 0 <= i < res@.len() ==> (#[trigger] res@[i])@ == self@.entries[i].0,
    {
        let n = option_map_len(&self.entries);
        let mut out: Vec<&str> = Vec::new();
        let mut i: usize = 0;
        while i < n
            invariant
                n == self@.entries.len(),
                i <= n,
                out@.len() == i,
                forall|j: int| 0 <= j < i ==> (#[trigger] out@[j])@ == self@.entries[j].0,
            decreases n - i,
        {
            match option_map_get_index(&self.entries, i) {
                Some((key, _)) => out.push(key.as_str()),
                None => {},
            }
            i += 1;
        }
        out
    }

    /// Yields the normalized option names in insertion order.
    pub fn keys(&self) -> (res: std::vec::IntoIter<&str>)
        ensures
            into_iter_elts(res).len() == self@.entries.len(),
            forall|i: int| 0 <= i < into_iter_elts(res).len() ==> (#[trigger] into_iter_elts(res)[i])@
                == self@.entries[i].0,
    {
        let keys = self.key_list();
        let ghost elements = keys@;
        let res = keys.into_iter();
        assert(into_iter_elts(res) == elements);
        res
    }

    /// The number of options defined in this section.
    pub fn len(&self) -> (res: usize)
        ensures
            res == self@.entries.len(),
    {
        option_map_len(&self.entries)
    }

    /// Whether the section defines no options at all.
    pub fn is_empty(&self) -> (res: bool)
        ensures
            res == (self@.entries.len() == 0),
    {
        option_map_len(&self.entries) == 0
    }

    /// Removes every option, keeping the header span.
    pub fn clear(&mut self)
        ensures
            final(self)@.entries == Seq::<(Seq<char>, EntryModel)>::empty(),
            final(self)@.header == old(self)@.header,
            final(self).wf(),
    {
        option_map_clear(&mut self.entries);
    }

    /// Records the `[name]` header this section was introduced by.
    ///
    /// Which occurrence wins when a header repeats is a parser policy decision, made at the
    /// single call site rather than here.
    pub fn set_header(&mut self, span: Span)
        ensures
            final(self)@.entries == old(self)@.entries,
            final(self)@.header == Some(span),
    {
        self.header = Some(span);
    }
}

/// The section `pairs` builds when inserted in order into `entries`.
pub open spec fn insert_all(
    entries: Seq<(Seq<char>, EntryModel)>,
    pairs: Seq<(Spanned<Seq<char>>, Spanned<Seq<char>>)>,
) -> Seq<(Seq<char>, EntryModel)>
    decreases pairs.len(),
{
    if pairs.len() == 0 {
        entries
    } else {
        insert_all(
            inserted(entries, normalized(pairs[0].0.inner), entry_of(pairs[0].0, pairs[0].1)),
            pairs.drop_first(),
        )
    }
}

/// The views of key-value pairs.
pub open spec fn pair_views(pairs: Seq<(Spanned<String>, Spanned<String>)>) -> Seq<(Spanned<Seq<char>>, Spanned<Seq<char>>)> {
    pairs.map_values(|p: (Spanned<String>, Spanned<String>)| (p.0@, p.1@))
}

/// What `format!("{:?}", s)` renders for a string: it quoted, with its special characters
/// escaped.
pub uninterp spec fn debug_text(s: Seq<char>) -> Seq<char>;

/// `format!("{:?}", s)`.
#[verifier::external_body]
fn debug_str(s: &str) -> (res: String)
    ensures
        res@ == debug_text(s@),
{
    format!("{:?}", s)
}

/// A section rendered as a map from normalized name to value, both in `Debug` form.
pub open spec fn section_text(entries: Seq<(Seq<char>, EntryModel)>) -> Seq<char> {
    "{"@ + join(
        entries.map_values(|p: (Seq<char>, EntryModel)| debug_text(p.0) + ": "@ + debug_text(p.1.value.inner)),
        ", "@,
    ) + "}"@
}

/// A document rendered as one map: each section name with its section, then each default
/// with its value as written.
pub open spec fn ini_text(ini: IniModel) -> Seq<char> {
    "{"@ + join(
        ini.sections.map_values(|p: (Seq<char>, SectionModel)| debug_text(p.0) + ": "@ + section_text(p.1.entries))
            + ini.defaults.entries.map_values(|p: (Seq<char>, EntryModel)| debug_text(p.0) + ": "@ + p.1.value.inner),
        ", "@,
    ) + "}"@
}

/// Appends `item` to `out`, after `, ` unless it is the first item.
fn push_item(out: &mut String, item: &str, first: bool)
    ensures
        final(out)@ == if first { old(out)@ + item@ } else { old(out)@ + ", "@ + item@ },
{
    if !first {
        out.append(", ");
    }
    out.append(item);
}

proof fn lemma_join_push(items: Seq<Seq<char>>, item: Seq<char>, sep: Seq<char>)
    ensures
        join(items.push(item), sep) == if items.len() == 0 { item } else { join(items, sep) + sep + item },
{
    assert(items.push(item).drop_last() =~= items);
}

/// `(pair.0, pair.1)` as `Spanned` strings: the `From` impls and `FromIterator` build a
/// section from these.
type Pair = (Spanned<String>, Spanned<String>);

/// `Vec::from` an array.
#[verifier::external_body]
fn array_to_vec<const N: usize>(pairs: [Pair; N]) -> (res: Vec<Pair>)
    ensures
        res@ == pairs@,
{
    Vec::from(pairs)
}

impl Section {
    /// The section `pairs` defines when inserted in order, with no header.
    pub fn from_pairs(pairs: Vec<(Spanned<String>, Spanned<String>)>) -> (res: Section)
        ensures
            res@.entries == insert_all(Seq::empty(), pair_views(pairs@)),
            res@.header is None,
            res.wf(),
    {
        let mut section = Section::default();
        let mut rest = pairs;
        let ghost all = pair_views(pairs@);
        proof {
            assert(pair_views(rest@) == all);
        }
        while rest.len() > 0
            invariant
                insert_all(Seq::empty(), all) == insert_all(section@.entries, pair_views(rest@)),
                section@.header is None,
                section.wf(),
            decreases rest@.len(),
        {
            let ghost before = rest@;
            let (key, value) = rest.remove(0);
            proof {
                assert(pair_views(rest@) =~= pair_views(before).drop_first());
            }
            section.insert(key, value);
        }
        section
    }

    /// The section as a map from normalized name to value, in `Debug` form.
    pub fn to_string(&self) -> (res: String)
        ensures
            res@ == section_text(self@.entries),
    {
        let pairs = self.pairs();
        let ghost items = self@.entries.map_values(|p: (Seq<char>, EntryModel)| debug_text(p.0) + ": "@ + debug_text(p.1.value.inner));
        let mut out = String::from_str("{");
        let mut i: usize = 0;
        while i < pairs.len()
            invariant
                pairs@.len() == self@.entries.len(),
                forall|j: int| 0 <= j < pairs@.len() ==> (#[trigger] pairs@[j]).0@ == self@.entries[j].0
                    && pairs@[j].1@ == self@.entries[j].1,
                items == self@.entries.map_values(|p: (Seq<char>, EntryModel)| debug_text(p.0) + ": "@ + debug_text(p.1.value.inner)),
                i <= pairs@.len(),
                out@ == "{"@ + join(items.take(i as int), ", "@),
            decreases pairs@.len() - i,
        {
            let (key, entry) = pairs[i];
            let mut item = debug_str(key);
            item.append(": ");
            let value = debug_str(entry.as_str());
            item.append(value.as_str());
            proof {
                lemma_join_push(items.take(i as int), items[i as int], ", "@);
                assert(items.take(i + 1) =~= items.take(i as int).push(items[i as int]));
            }
            push_item(&mut out, item.as_str(), i == 0);
            i += 1;
        }
        out.append("}");
        assert(items.take(pairs@.len() as int) =~= items);
        out
    }
}

impl From<Vec<(Spanned<String>, Spanned<String>)>> for Section {
    /// The section the pairs define when inserted in order, with no header.
    fn from(entries: Vec<(Spanned<String>, Spanned<String>)>) -> (res: Self)
        ensures
            res@.entries == insert_all(Seq::empty(), pair_views(entries@)),
            res@.header is None,
            res.wf(),
    {
        Section::from_pairs(entries)
    }
}

impl vstd::std_specs::convert::FromSpecImpl<Vec<(Spanned<String>, Spanned<String>)>> for Section {
    open spec fn obeys_from_spec() -> bool {
        false
    }

    open spec fn from_spec(entries: Vec<(Spanned<String>, Spanned<String>)>) -> Self {
        arbitrary()
    }
}

impl<const N: usize> From<[(Spanned<String>, Spanned<String>); N]> for Section {
    /// The section the pairs define when inserted in order, with no header.
    fn from(entries: [(Spanned<String>, Spanned<String>); N]) -> (res: Self)
        ensures
            res@.entries == insert_all(Seq::empty(), pair_views(entries@)),
            res@.header is None,
            res.wf(),
    {
        Section::from_pairs(array_to_vec(entries))
    }
}

impl<const N: usize> vstd::std_specs::convert::FromSpecImpl<[(Spanned<String>, Spanned<String>); N]> for Section {
    open spec fn obeys_from_spec() -> bool {
        false
    }

    open spec fn from_spec(entries: [(Spanned<String>, Spanned<String>); N]) -> Self {
        arbitrary()
    }
}

/// What a [`SectionView`] sees: the section's name, the section, and the defaults behind it.
pub struct SectionViewModel {
    pub name: Seq<char>,
    pub section: SectionModel,
    pub defaults: SectionModel,
}

/// The one lookup rule: the section's own entry first, then the default.
pub open spec fn resolve(view: SectionViewModel, key: Seq<char>) -> Option<EntryModel> {
    let name = normalized(key);
    match lookup(view.section.entries, name) {
        Some(entry) => Some(entry),
        None => lookup(view.defaults.entries, name),
    }
}

/// The defaults the section does not redefine.
pub open spec fn unshadowed(view: SectionViewModel) -> spec_fn((Seq<char>, EntryModel)) -> bool {
    |pair: (Seq<char>, EntryModel)| lookup(view.section.entries, normalized(pair.0)) is None
}

/// What a view contains: the section's entries in insertion order, then the defaults it
/// does not redefine.
pub open spec fn merged_entries(view: SectionViewModel) -> Seq<(Seq<char>, EntryModel)> {
    view.section.entries + view.defaults.entries.filter(unshadowed(view))
}

/// A read view of one section with the document defaults behind it.
///
/// `get` and `iter` both implement one rule — this section's own entries first, then the
/// defaults it does not shadow. `contains` is defined as `get(..).is_some()`, and `keys`,
/// `len` and `is_empty` are defined over `iter`, so no accessor can drift from the two that
/// state the rule.
#[derive(Debug, Clone, Copy)]
pub struct SectionView<'a> {
    name: &'a str,
    section: &'a Section,
    defaults: &'a Section,
}

impl<'a> View for SectionView<'a> {
    type V = SectionViewModel;

    closed spec fn view(&self) -> SectionViewModel {
        SectionViewModel { name: self.name@, section: self.section@, defaults: self.defaults@ }
    }
}

impl<'a> SectionView<'a> {
    /// The section name, borrowed from the document.
    pub fn name(self) -> (res: &'a str)
        ensures
            res@ == self@.name,
    {
        self.name
    }

    /// The span of the `[name]` header that introduced this section, if it came from source.
    pub fn header_span(self) -> (res: Option<Span>)
        ensures
            res == self@.section.header,
    {
        self.section.header_span()
    }

    /// The one lookup rule: this section first, then the defaults.
    pub fn get(self, key: &str) -> (res: Option<&'a Entry>)
        ensures
            match res {
                Some(e) => resolve(self@, key@) == Some(e@),
                None => resolve(self@, key@) is None,
            },
    {
        match self.section.get(key) {
            Some(entry) => Some(entry),
            None => self.defaults.get(key),
        }
    }

    /// Whether the name resolves at all. Defined as [`SectionView::get`] being `Some`.
    pub fn contains(self, key: &str) -> (res: bool)
        ensures
            res == resolve(self@, key@) is Some,
    {
        self.get(key).is_some()
    }

    /// The single definition of "what this view contains", shared by `iter`, `keys`, `len`
    /// and `is_empty`.
    fn merged(self) -> (res: Vec<(&'a str, &'a Entry)>)
        ensures
            res@.len() == merged_entries(self@).len(),
            forall|i: int| 0 <= i < res@.len() ==> (#[trigger] res@[i]).0@ == merged_entries(self@)[i].0
                && res@[i].1@ == merged_entries(self@)[i].1,
    {
        let mut out = self.section.pairs();
        let defaults = self.defaults.pairs();
        let ghost own = self@.section.entries;
        let ghost inherited = self@.defaults.entries;
        let ghost keep = unshadowed(self@);
        let ghost mut model: Seq<(Seq<char>, EntryModel)> = own;
        let mut i: usize = 0;
        proof {
            reveal_with_fuel(Seq::<(Seq<char>, EntryModel)>::filter, 1);
            assert(inherited.take(0) =~= Seq::<(Seq<char>, EntryModel)>::empty());
            assert(model =~= own + inherited.take(0).filter(keep));
        }
        while i < defaults.len()
            invariant
                defaults@.len() == inherited.len(),
                forall|j: int| 0 <= j < defaults@.len() ==> (#[trigger] defaults@[j]).0@ == inherited[j].0
                    && defaults@[j].1@ == inherited[j].1,
                own == self@.section.entries,
                inherited == self@.defaults.entries,
                keep == unshadowed(self@),
                i <= defaults@.len(),
                model == own + inherited.take(i as int).filter(keep),
                out@.len() == model.len(),
                forall|j: int| 0 <= j < out@.len() ==> (#[trigger] out@[j]).0@ == model[j].0
                    && out@[j].1@ == model[j].1,
            decreases defaults@.len() - i,
        {
            let (key, entry) = defaults[i];
            let shadowed = self.section.contains(key);
            proof {
                reveal_with_fuel(Seq::<(Seq<char>, EntryModel)>::filter, 1);
                assert(inherited.take(i + 1).drop_last() =~= inherited.take(i as int));
                assert(inherited.take(i + 1).last() == inherited[i as int]);
            }
            if !shadowed {
                out.push((key, entry));
                proof {
                    model = model.push(inherited[i as int]);
                    assert(model =~= own + inherited.take(i + 1).filter(keep));
                }
            } else {
                proof {
                    assert(model =~= own + inherited.take(i + 1).filter(keep));
                }
            }
            i += 1;
        }
        proof {
            assert(inherited.take(inherited.len() as int) =~= inherited);
        }
        out
    }

    /// This section's entries in insertion order, then the defaults it does not shadow.
    pub fn iter(self) -> (res: std::vec::IntoIter<(&'a str, &'a Entry)>)
        ensures
            into_iter_elts(res).len() == merged_entries(self@).len(),
            forall|i: int| 0 <= i < into_iter_elts(res).len() ==> (#[trigger] into_iter_elts(res)[i]).0@
                == merged_entries(self@)[i].0 && into_iter_elts(res)[i].1@ == merged_entries(self@)[i].1,
    {
        let merged = self.merged();
        let ghost elements = merged@;
        let res = merged.into_iter();
        assert(into_iter_elts(res) == elements);
        res
    }

    /// The names [`SectionView::iter`] yields, in the same order.
    pub fn keys(self) -> (res: std::vec::IntoIter<&'a str>)
        ensures
            into_iter_elts(res).len() == merged_entries(self@).len(),
            forall|i: int| 0 <= i < into_iter_elts(res).len() ==> (#[trigger] into_iter_elts(res)[i])@
                == merged_entries(self@)[i].0,
    {
        let merged = self.merged();
        let mut names: Vec<&'a str> = Vec::new();
        let mut i: usize = 0;
        while i < merged.len()
            invariant
                merged@.len() == merged_entries(self@).len(),
                forall|j: int| 0 <= j < merged@.len() ==> (#[trigger] merged@[j]).0@ == merged_entries(self@)[j].0,
                i <= merged@.len(),
                names@.len() == i,
                forall|j: int| 0 <= j < i ==> (#[trigger] names@[j])@ == merged_entries(self@)[j].0,
            decreases merged@.len() - i,
        {
            names.push(merged[i].0);
            i += 1;
        }
        let ghost elements = names@;
        let res = names.into_iter();
        assert(into_iter_elts(res) == elements);
        res
    }

    /// The number of names that resolve through this view.
    pub fn len(self) -> (res: usize)
        ensures
            res == merged_entries(self@).len(),
    {
        self.merged().len()
    }

    /// Whether no name resolves through this view.
    pub fn is_empty(self) -> (res: bool)
        ensures
            res == (merged_entries(self@).len() == 0),
    {
        self.merged().len() == 0
    }
}

/// The error returned when an operation names a section the document does not have.
#[derive(Debug, Clone, PartialEq, Eq)]
pub struct NoSectionError(pub String);

impl NoSectionError {
    /// The message: the missing name, quoted.
    pub fn to_string(&self) -> (res: String)
        ensures
            res@ == "missing section: "@ + debug_text(self.0@),
    {
        let mut message = String::from_str("missing section: ");
        let name = debug_str(self.0.as_str());
        message.append(name.as_str());
        message
    }
}

/// An [`Ini`]: its named sections in the order they were first seen, and its defaults.
pub struct IniModel {
    pub sections: Seq<(Seq<char>, SectionModel)>,
    pub defaults: SectionModel,
}

/// The view of the `i`-th section of `ini`, with the defaults behind it.
pub open spec fn view_at(ini: IniModel, i: int) -> SectionViewModel {
    SectionViewModel { name: ini.sections[i].0, section: ini.sections[i].1, defaults: ini.defaults }
}

/// `option` looked up in `section` and then in the defaults; nothing when there is no such
/// section.
pub open spec fn ini_get(ini: IniModel, section: Seq<char>, option: Seq<char>) -> Option<EntryModel> {
    let i = key_index(ini.sections, section);
    if i >= 0 {
        resolve(view_at(ini, i), option)
    } else {
        None
    }
}

/// `ini` with the section at `i` replaced by `section`, under the same name.
pub open spec fn with_section_at(ini: IniModel, i: int, section: SectionModel) -> IniModel {
    IniModel { sections: ini.sections.update(i, (ini.sections[i].0, section)), defaults: ini.defaults }
}

/// No section name is held twice, and the defaults and every section are well formed.
pub open spec fn document_wf(ini: IniModel) -> bool {
    &&& unique_keys(ini.sections)
    &&& section_wf(ini.defaults)
    &&& forall|i: int| 0 <= i < ini.sections.len() ==> section_wf(#[trigger] ini.sections[i].1)
}

pub(crate) proof fn lemma_with_section_wf(ini: IniModel, i: int, section: SectionModel)
    requires
        document_wf(ini),
        0 <= i < ini.sections.len(),
        section_wf(section),
    ensures
        document_wf(with_section_at(ini, i, section)),
{
    let after = with_section_at(ini, i, section);
    assert forall|a: int, b: int| 0 <= a < b < after.sections.len() implies (#[trigger] after.sections[a]).0
        != (#[trigger] after.sections[b]).0 by {
        assert(after.sections[a].0 == ini.sections[a].0);
        assert(after.sections[b].0 == ini.sections[b].0);
    }
    assert forall|j: int| 0 <= j < after.sections.len() implies section_wf(#[trigger] after.sections[j].1) by {
        if j != i {
            assert(after.sections[j] == ini.sections[j]);
        }
    }
}

/// Setting `name` to a well-formed section, or removing it, keeps a document well formed.
proof fn lemma_sections_wf(ini: IniModel, name: Seq<char>, section: SectionModel)
    requires
        document_wf(ini),
        section_wf(section),
    ensures
        document_wf(IniModel { sections: inserted(ini.sections, name, section), defaults: ini.defaults }),
        document_wf(IniModel { sections: removed(ini.sections, name), defaults: ini.defaults }),
{
    crate::index_map::lemma_unique_preserved(ini.sections, name, section);
    lemma_key_index(ini.sections, name);
    lemma_inserted_sections_wf(ini, name, section);
    lemma_removed_sections_wf(ini, name);
}

proof fn lemma_inserted_sections_wf(ini: IniModel, name: Seq<char>, section: SectionModel)
    requires
        document_wf(ini),
        section_wf(section),
    ensures
        forall|j: int| 0 <= j < inserted(ini.sections, name, section).len()
            ==> section_wf(#[trigger] inserted(ini.sections, name, section)[j].1),
{
    lemma_key_index(ini.sections, name);
    let i = key_index(ini.sections, name);
    let ins = inserted(ini.sections, name, section);
    assert forall|j: int| 0 <= j < ins.len() implies section_wf(#[trigger] ins[j].1) by {
        if j < ini.sections.len() && j != i {
            assert(ins[j] == ini.sections[j]);
        } else {
            assert(ins[j].1 == section);
        }
    }
}

proof fn lemma_removed_sections_wf(ini: IniModel, name: Seq<char>)
    requires
        document_wf(ini),
    ensures
        forall|j: int| 0 <= j < removed(ini.sections, name).len() ==> section_wf(#[trigger] removed(ini.sections, name)[j].1),
{
    lemma_key_index(ini.sections, name);
    let i = key_index(ini.sections, name);
    let rem = removed(ini.sections, name);
    assert forall|j: int| 0 <= j < rem.len() implies section_wf(#[trigger] rem[j].1) by {
        if i >= 0 {
            let from = if j < i { j } else { j + 1 };
            assert(rem[j] == ini.sections[from]);
        } else {
            assert(rem[j] == ini.sections[j]);
        }
    }
}

/// A parsed INI document: named sections, plus the defaults every section inherits.
#[derive(Debug, Clone, PartialEq, Eq)]
pub struct Ini {
    sections: IndexMap<String, Section>,
    defaults: Section,
}

impl View for Ini {
    type V = IniModel;

    closed spec fn view(&self) -> IniModel {
        IniModel { sections: section_entries(self.sections), defaults: self.defaults@ }
    }
}

impl Default for Ini {
    /// A document with no sections and empty defaults.
    fn default() -> (res: Self)
        ensures
            res@.sections == Seq::<(Seq<char>, SectionModel)>::empty(),
            res@.defaults.entries == Seq::<(Seq<char>, EntryModel)>::empty(),
            res@.defaults.header is None,
    {
        Ini { sections: section_map_new(), defaults: Section::default() }
    }
}

impl Ini {
    /// The options every section inherits.
    ///
    /// The defaults always exist; an empty document has empty defaults, not absent ones.
    pub fn defaults(&self) -> (res: &Section)
        ensures
            res@ == self@.defaults,
    {
        &self.defaults
    }

    /// The options every section inherits, for modification.
    pub fn defaults_mut(&mut self) -> (res: &mut Section)
        ensures
            res@ == old(self)@.defaults,
            final(self)@ == (IniModel { sections: old(self)@.sections, defaults: final(res)@ }),
    {
        &mut self.defaults
    }

    /// A read view of the section called `name`, with the defaults behind it.
    ///
    /// Section names are compared exactly; only option names are case-insensitive.
    pub fn section(&self, name: &str) -> (res: Option<SectionView<'_>>)
        ensures
            match res {
                Some(view) => {
                    let i = key_index(self@.sections, name@);
                    &&& i >= 0
                    &&& view@ == view_at(self@, i)
                    &&& document_wf(self@) ==> section_wf(view@.section) && section_wf(view@.defaults)
                },
                None => key_index(self@.sections, name@) < 0,
            },
    {
        proof {
            lemma_key_index(self@.sections, name@);
            let i = key_index(self@.sections, name@);
            if document_wf(self@) && i >= 0 {
                assert(section_wf(self@.sections[i].1));
            }
        }
        match section_map_get_full(&self.sections, name) {
            Some((_, stored, section)) => Some(SectionView { name: stored.as_str(), section, defaults: &self.defaults }),
            None => None,
        }
    }

    /// The section called `name`, for modification.
    ///
    /// This is the section's own entries only: mutating through the defaults of another
    /// section is not something a caller can ask for, so the view is not offered here.
    pub fn section_mut(&mut self, name: &str) -> (res: Option<&mut Section>)
        ensures
            match res {
                Some(section) => {
                    let i = key_index(old(self)@.sections, name@);
                    &&& i >= 0
                    &&& section@ == old(self)@.sections[i].1
                    &&& final(self)@ == with_section_at(old(self)@, i, final(section)@)
                },
                None => {
                    &&& key_index(old(self)@.sections, name@) < 0
                    &&& final(self)@ == old(self)@
                },
            },
    {
        section_map_get_mut(&mut self.sections, name)
    }

    /// Adds a section, returning the one it replaced; a replaced section keeps its position.
    pub fn insert_section(&mut self, name: &str, section: Section) -> (res: Option<Section>)
        ensures
            final(self)@ == (IniModel {
                sections: inserted(old(self)@.sections, name@, section@),
                defaults: old(self)@.defaults,
            }),
            match res {
                Some(s) => lookup(old(self)@.sections, name@) == Some(s@),
                None => lookup(old(self)@.sections, name@) is None,
            },
            document_wf(old(self)@) && section.wf() ==> document_wf(final(self)@),
    {
        proof {
            if document_wf(self@) && section.wf() {
                lemma_sections_wf(self@, name@, section@);
            }
        }
        section_map_insert(&mut self.sections, String::from_str(name), section)
    }

    /// Removes and returns the section called `name`, preserving the order of the rest.
    pub fn remove_section(&mut self, name: &str) -> (res: Option<Section>)
        ensures
            final(self)@ == (IniModel {
                sections: removed(old(self)@.sections, name@),
                defaults: old(self)@.defaults,
            }),
            match res {
                Some(s) => lookup(old(self)@.sections, name@) == Some(s@),
                None => lookup(old(self)@.sections, name@) is None,
            },
            document_wf(old(self)@) ==> document_wf(final(self)@),
    {
        proof {
            if document_wf(self@) {
                lemma_sections_wf(self@, name@, SectionModel { entries: Seq::empty(), header: None });
            }
        }
        section_map_shift_remove(&mut self.sections, name)
    }

    /// The section names in the order they were first seen.
    fn name_list(&self) -> (res: Vec<&str>)
        ensures
            res@.len() == self@.sections.len(),
            forall|i: int| 0 <= i < res@.len() ==> (#[trigger] res@[i])@ == self@.sections[i].0,
    {
        let n = section_map_len(&self.sections);
        let mut out: Vec<&str> = Vec::new();
        let mut i: usize = 0;
        while i < n
            invariant
                n == self@.sections.len(),
                i <= n,
                out@.len() == i,
                forall|j: int| 0 <= j < i ==> (#[trigger] out@[j])@ == self@.sections[j].0,
            decreases n - i,
        {
            match section_map_get_index(&self.sections, i) {
                Some((name, _)) => out.push(name.as_str()),
                None => {},
            }
            i += 1;
        }
        out
    }

    /// Yields the section names in the order they were first seen. The defaults are not
    /// a section and are not yielded.
    pub fn section_names(&self) -> (res: std::vec::IntoIter<&str>)
        ensures
            into_iter_elts(res).len() == self@.sections.len(),
            forall|i: int| 0 <= i < into_iter_elts(res).len() ==> (#[trigger] into_iter_elts(res)[i])@
                == self@.sections[i].0,
    {
        let names = self.name_list();
        let ghost elements = names@;
        let res = names.into_iter();
        assert(into_iter_elts(res) == elements);
        res
    }

    /// Whether a section called `name` exists.
    pub fn has_section(&self, name: &str) -> (res: bool)
        ensures
            res == (key_index(self@.sections, name@) >= 0),
    {
        section_map_get_full(&self.sections, name).is_some()
    }

    /// The number of sections, not counting the defaults.
    pub fn len(&self) -> (res: usize)
        ensures
            res == self@.sections.len(),
    {
        section_map_len(&self.sections)
    }

    /// Whether the document has no sections. The defaults may still be non-empty.
    pub fn is_empty(&self) -> (res: bool)
        ensures
            res == (self@.sections.len() == 0),
    {
        section_map_len(&self.sections) == 0
    }

    /// Removes every section, keeping the defaults.
    pub fn clear(&mut self)
        ensures
            final(self)@ == (IniModel {
                sections: Seq::<(Seq<char>, SectionModel)>::empty(),
                defaults: old(self)@.defaults,
            }),
            document_wf(old(self)@) ==> document_wf(final(self)@),
    {
        section_map_clear(&mut self.sections);
    }

    /// Looks `option` up in `section`, then in the defaults.
    ///
    /// Returns `None` when there is no such section, so that a typo in a section name is
    /// not answered with a default.
    pub fn get(&self, section: &str, option: &str) -> (res: Option<&Entry>)
        ensures
            match res {
                Some(e) => ini_get(self@, section@, option@) == Some(e@),
                None => ini_get(self@, section@, option@) is None,
            },
    {
        match self.section(section) {
            Some(view) => view.get(option),
            None => None,
        }
    }

    /// Looks `option` up in `section`, then in the defaults, for modification.
    ///
    /// Applies the same rule as [`Ini::get`]: the section's own entries first, then the
    /// defaults.
    pub fn get_mut(&mut self, section: &str, option: &str) -> (res: Option<&mut Entry>)
        ensures
            match res {
                Some(e) => {
                    let i = key_index(old(self)@.sections, section@);
                    let own = old(self)@.sections[i].1;
                    let defaults = old(self)@.defaults;
                    let name = normalized(option@);
                    &&& ini_get(old(self)@, section@, option@) == Some(e@)
                    &&& i >= 0
                    &&& if lookup(own.entries, name) is Some {
                        let j = key_index(own.entries, name);
                        final(self)@ == with_section_at(
                            old(self)@,
                            i,
                            SectionModel {
                                entries: own.entries.update(j, (own.entries[j].0, final(e)@)),
                                header: own.header,
                            },
                        )
                    } else {
                        let j = key_index(defaults.entries, name);
                        final(self)@ == (IniModel {
                            sections: old(self)@.sections,
                            defaults: SectionModel {
                                entries: defaults.entries.update(j, (defaults.entries[j].0, final(e)@)),
                                header: defaults.header,
                            },
                        })
                    }
                },
                None => {
                    &&& ini_get(old(self)@, section@, option@) is None
                    &&& final(self)@ == old(self)@
                },
            },
    {
        let in_section = match section_map_get_full(&self.sections, section) {
            Some((_, _, own)) => own.contains(option),
            None => return None,
        };
        if in_section {
            match section_map_get_mut(&mut self.sections, section) {
                Some(own) => own.get_mut(option),
                None => None,
            }
        } else {
            self.defaults.get_mut(option)
        }
    }

    /// Defines `key` as `value` in `section`, returning the entry it replaced.
    ///
    /// # Errors
    /// When no section with the given name exists. Use [`Ini::defaults_mut`] to write a
    /// default; the defaults are not reachable under a section name.
    pub fn set(&mut self, section: &str, key: Spanned<String>, value: Spanned<String>) -> (res: Result<Option<Entry>, NoSectionError>)
        ensures
            match res {
                Ok(replaced) => {
                    let i = key_index(old(self)@.sections, section@);
                    let own = old(self)@.sections[i].1;
                    &&& i >= 0
                    &&& final(self)@ == with_section_at(old(self)@, i, section_with(own, key@, value@))
                    &&& match replaced {
                        Some(e) => lookup(own.entries, normalized(key.inner@)) == Some(e@),
                        None => lookup(own.entries, normalized(key.inner@)) is None,
                    }
                },
                Err(NoSectionError(name)) => {
                    &&& key_index(old(self)@.sections, section@) < 0
                    &&& name@ == section@
                    &&& final(self)@ == old(self)@
                },
            },
            document_wf(old(self)@) ==> document_wf(final(self)@),
    {
        let ghost before = self@;
        let ghost entry = entry_of(key@, value@);
        let ghost name = normalized(key.inner@);
        let res = match section_map_get_mut(&mut self.sections, section) {
            Some(target) => Ok(target.insert(key, value)),
            None => Err(NoSectionError(String::from_str(section))),
        };
        proof {
            let i = key_index(before.sections, section@);
            if document_wf(before) && i >= 0 {
                lemma_key_index(before.sections, section@);
                lemma_section_wf_kept(before.sections[i].1, name, entry);
                lemma_with_section_wf(before, i, self@.sections[i].1);
            }
        }
        res
    }

    /// The document as one map: each section name with its section, then each default with
    /// its value as written.
    pub fn to_string(&self) -> (res: String)
        ensures
            res@ == ini_text(self@),
    {
        let names = self.name_list();
        let defaults = self.defaults.pairs();
        let ghost section_items = self@.sections.map_values(
            |p: (Seq<char>, SectionModel)| debug_text(p.0) + ": "@ + section_text(p.1.entries),
        );
        let ghost default_items = self@.defaults.entries.map_values(
            |p: (Seq<char>, EntryModel)| debug_text(p.0) + ": "@ + p.1.value.inner,
        );
        let ghost items = section_items + default_items;
        let mut out = String::from_str("{");
        let mut i: usize = 0;
        while i < names.len()
            invariant
                names@.len() == self@.sections.len(),
                forall|j: int| 0 <= j < names@.len() ==> (#[trigger] names@[j])@ == self@.sections[j].0,
                section_items == self@.sections.map_values(
                    |p: (Seq<char>, SectionModel)| debug_text(p.0) + ": "@ + section_text(p.1.entries),
                ),
                items == section_items + default_items,
                i <= names@.len(),
                out@ == "{"@ + join(items.take(i as int), ", "@),
            decreases names@.len() - i,
        {
            let name = names[i];
            let mut item = debug_str(name);
            item.append(": ");
            match section_map_get_index(&self.sections, i) {
                Some((_, section)) => {
                    let text = section.to_string();
                    item.append(text.as_str());
                },
                None => {},
            }
            proof {
                lemma_join_push(items.take(i as int), items[i as int], ", "@);
                assert(items.take(i + 1) =~= items.take(i as int).push(items[i as int]));
            }
            push_item(&mut out, item.as_str(), i == 0);
            i += 1;
        }
        let mut k: usize = 0;
        while k < defaults.len()
            invariant
                defaults@.len() == self@.defaults.entries.len(),
                forall|j: int| 0 <= j < defaults@.len() ==> (#[trigger] defaults@[j]).0@ == self@.defaults.entries[j].0
                    && defaults@[j].1@ == self@.defaults.entries[j].1,
                default_items == self@.defaults.entries.map_values(
                    |p: (Seq<char>, EntryModel)| debug_text(p.0) + ": "@ + p.1.value.inner,
                ),
                section_items.len() == names@.len(),
                items == section_items + default_items,
                k <= defaults@.len(),
                out@ == "{"@ + join(items.take(names@.len() + k as int), ", "@),
            decreases defaults@.len() - k,
        {
            let (key, entry) = defaults[k];
            let mut item = debug_str(key);
            item.append(": ");
            item.append(entry.as_str());
            let ghost at: int = names@.len() + k as int;
            proof {
                lemma_join_push(items.take(at), items[at], ", "@);
                assert(items.take(at + 1) =~= items.take(at).push(items[at]));
            }
            push_item(&mut out, item.as_str(), names.len() == 0 && k == 0);
            k += 1;
        }
        out.append("}");
        assert(items.take(names@.len() + defaults@.len() as int) =~= items);
        out
    }

    /// Removes `option` from `section`, returning the entry that was there.
    ///
    /// Only the section's own entries are considered: an inherited default is not removable
    /// through the section that inherits it.
    pub fn remove_option(&mut self, section: &str, option: &str) -> (res: Option<Entry>)
        ensures
            key_index(old(self)@.sections, section@) < 0 ==> res is None && final(self)@ == old(self)@,
            key_index(old(self)@.sections, section@) >= 0 ==> {
                let i = key_index(old(self)@.sections, section@);
                let own = old(self)@.sections[i].1;
                &&& final(self)@ == with_section_at(
                    old(self)@,
                    i,
                    SectionModel { entries: removed(own.entries, normalized(option@)), header: own.header },
                )
                &&& match res {
                    Some(e) => lookup(own.entries, normalized(option@)) == Some(e@),
                    None => lookup(own.entries, normalized(option@)) is None,
                }
            },
            document_wf(old(self)@) ==> document_wf(final(self)@),
    {
        let ghost before = self@;
        let res = match section_map_get_mut(&mut self.sections, section) {
            Some(own) => own.remove(option),
            None => None,
        };
        proof {
            let i = key_index(before.sections, section@);
            if document_wf(before) && i >= 0 {
                lemma_key_index(before.sections, section@);
                lemma_section_wf_kept(before.sections[i].1, normalized(option@), arbitrary());
                lemma_with_section_wf(before, i, self@.sections[i].1);
            }
        }
        res
    }
}

/// Reading back what was written: once `key` is defined as `value`, every name that
/// normalizes like `key` finds exactly that entry, and every other name finds what it found
/// before.
pub proof fn law_section_get_after_insert(
    section: SectionModel,
    key: Spanned<Seq<char>>,
    value: Spanned<Seq<char>>,
    probe: Seq<char>,
)
    ensures
        lookup(section_with(section, key, value).entries, normalized(probe)) == if normalized(probe) == normalized(
            key.inner,
        ) {
            Some(entry_of(key, value))
        } else {
            lookup(section.entries, normalized(probe))
        },
{
    lemma_lookup_inserted(section.entries, normalized(key.inner), entry_of(key, value), normalized(probe));
}

/// Redefining an option keeps its place: the names in order are unchanged when the name was
/// already defined, and a new name is appended last.
pub proof fn law_redefinition_keeps_position(section: SectionModel, key: Spanned<Seq<char>>, value: Spanned<Seq<char>>)
    ensures
        keys_of(section_with(section, key, value).entries) == if lookup(section.entries, normalized(key.inner)) is Some {
            keys_of(section.entries)
        } else {
            keys_of(section.entries).push(normalized(key.inner))
        },
{
    lemma_keys_inserted(section.entries, normalized(key.inner), entry_of(key, value));
}

/// Once `key` is removed from a section, no name that normalizes like it finds anything, and
/// every other name finds what it found before.
pub proof fn law_section_get_after_remove(section: SectionModel, key: Seq<char>, probe: Seq<char>)
    requires
        unique_keys(section.entries),
    ensures
        lookup(removed(section.entries, normalized(key)), normalized(probe)) == if normalized(probe) == normalized(key) {
            None
        } else {
            lookup(section.entries, normalized(probe))
        },
{
    lemma_lookup_removed(section.entries, normalized(key), normalized(probe));
}

/// Replacing a section keeps the position its name is found at.
pub(crate) proof fn lemma_with_section_index(ini: IniModel, i: int, section: SectionModel, name: Seq<char>)
    requires
        0 <= i < ini.sections.len(),
    ensures
        key_index(with_section_at(ini, i, section).sections, name) == key_index(ini.sections, name),
{
    let after = with_section_at(ini, i, section).sections;
    assert forall|j: int| 0 <= j < after.len() implies (#[trigger] after[j]).0 == ini.sections[j].0 by {}
    lemma_key_index_keys_only(after, ini.sections, name);
}

/// Reading back what [`Ini::set`] wrote: once `key` is set in an existing section, looking
/// it up in that section by any name that normalizes like it finds exactly the new entry,
/// whatever the defaults hold.
pub proof fn law_ini_get_after_set(
    ini: IniModel,
    section: Seq<char>,
    key: Spanned<Seq<char>>,
    value: Spanned<Seq<char>>,
    probe: Seq<char>,
)
    requires
        key_index(ini.sections, section) >= 0,
        normalized(probe) == normalized(key.inner),
    ensures
        ({
            let i = key_index(ini.sections, section);
            ini_get(with_section_at(ini, i, section_with(ini.sections[i].1, key, value)), section, probe) == Some(
                entry_of(key, value),
            )
        }),
{
    let i = key_index(ini.sections, section);
    lemma_key_index(ini.sections, section);
    let own = section_with(ini.sections[i].1, key, value);
    lemma_with_section_index(ini, i, own, section);
    law_section_get_after_insert(ini.sections[i].1, key, value, probe);
}

/// Removing a section's own option uncovers the default of the same name: after
/// [`Ini::remove_option`], looking the option up in that section finds what the defaults
/// hold for it, or nothing.
pub proof fn law_removed_option_falls_back_to_default(ini: IniModel, section: Seq<char>, option: Seq<char>)
    requires
        key_index(ini.sections, section) >= 0,
        unique_keys(ini.sections[key_index(ini.sections, section)].1.entries),
    ensures
        ({
            let i = key_index(ini.sections, section);
            let own = ini.sections[i].1;
            let after = with_section_at(
                ini,
                i,
                SectionModel { entries: removed(own.entries, normalized(option)), header: own.header },
            );
            ini_get(after, section, option) == lookup(ini.defaults.entries, normalized(option))
        }),
{
    let i = key_index(ini.sections, section);
    lemma_key_index(ini.sections, section);
    let own = ini.sections[i].1;
    let kept = SectionModel { entries: removed(own.entries, normalized(option)), header: own.header };
    lemma_with_section_index(ini, i, kept, section);
    lemma_lookup_removed(own.entries, normalized(option), normalized(option));
}

proof fn lemma_filter_member(
    s: Seq<(Seq<char>, EntryModel)>,
    pred: spec_fn((Seq<char>, EntryModel)) -> bool,
    i: int,
)
    requires
        0 <= i < s.filter(pred).len(),
    ensures
        exists|j: int| 0 <= j < s.len() && s[j] == s.filter(pred)[i] && pred(s[j]),
    decreases s.len(),
{
    reveal_with_fuel(Seq::<(Seq<char>, EntryModel)>::filter, 1);
    let rest = s.drop_last().filter(pred);
    if pred(s.last()) && i == rest.len() {
        assert(s.filter(pred)[i] == s.last());
        assert(s[s.len() - 1] == s.last());
    } else {
        assert(s.filter(pred)[i] == rest[i]);
        lemma_filter_member(s.drop_last(), pred, i);
        let j = choose|j: int| 0 <= j < s.drop_last().len() && s.drop_last()[j] == rest[i] && pred(s.drop_last()[j]);
        assert(s[j] == s.drop_last()[j]);
    }
}

/// Filtering keeps keys unique.
proof fn lemma_filter_unique(s: Seq<(Seq<char>, EntryModel)>, pred: spec_fn((Seq<char>, EntryModel)) -> bool)
    requires
        unique_keys(s),
    ensures
        unique_keys(s.filter(pred)),
    decreases s.len(),
{
    reveal_with_fuel(Seq::<(Seq<char>, EntryModel)>::filter, 1);
    if s.len() > 0 {
        let front = s.drop_last();
        assert forall|a: int, b: int| 0 <= a < b < front.len() implies (#[trigger] front[a]).0 != (#[trigger] front[b]).0 by {
            assert(front[a] == s[a] && front[b] == s[b]);
        }
        lemma_filter_unique(front, pred);
        let rest = front.filter(pred);
        if pred(s.last()) {
            let out = s.filter(pred);
            assert(out == rest.push(s.last()));
            assert forall|a: int, b: int| 0 <= a < b < out.len() implies (#[trigger] out[a]).0 != (#[trigger] out[b]).0 by {
                if b == rest.len() {
                    lemma_filter_member(front, pred, a);
                    let j = choose|j: int| 0 <= j < front.len() && front[j] == rest[a] && pred(front[j]);
                    assert(front[j] == s[j]);
                    assert(s[j].0 != s[s.len() - 1].0);
                } else {
                    assert(out[a] == rest[a] && out[b] == rest[b]);
                }
            }
        }
    }
}

/// Iteration and lookup follow one rule, for a well-formed section and defaults, which every
/// section of a parsed document and every section built through [`Section`]'s methods is:
/// each pair a view yields is what looking its name up through the view finds; no name is
/// yielded twice; and a name resolves through the view exactly when its normalized form is
/// yielded.
pub proof fn law_view_entries_resolve(view: SectionViewModel)
    requires
        section_wf(view.section),
        section_wf(view.defaults),
    ensures
        forall|i: int| 0 <= i < merged_entries(view).len() ==> resolve(view, (#[trigger] merged_entries(view)[i]).0) == Some(
            merged_entries(view)[i].1,
        ),
        unique_keys(merged_entries(view)),
        forall|key: Seq<char>| (#[trigger] resolve(view, key)) is Some <==> exists|i: int|
            0 <= i < merged_entries(view).len() && (#[trigger] merged_entries(view)[i]).0 == normalized(key),
{
    let own = view.section.entries;
    let defaults = view.defaults.entries;
    let keep = unshadowed(view);
    let inherited = defaults.filter(keep);
    let all = merged_entries(view);
    assert forall|i: int| 0 <= i < all.len() implies resolve(view, (#[trigger] all[i]).0) == Some(all[i].1)
        && normalized(all[i].0) == all[i].0 by {
        if i < own.len() {
            assert(all[i] == own[i]);
            crate::index_map::lemma_key_index_unique(own, own[i].0, i);
        } else {
            let k = i - own.len();
            assert(all[i] == inherited[k]);
            lemma_filter_member(defaults, keep, k);
            let j = choose|j: int| 0 <= j < defaults.len() && defaults[j] == inherited[k] && keep(defaults[j]);
            assert(normalized(defaults[j].0) == defaults[j].0);
            crate::index_map::lemma_key_index_unique(defaults, defaults[j].0, j);
        }
    }
    lemma_filter_unique(defaults, keep);
    assert forall|a: int, b: int| 0 <= a < b < all.len() implies (#[trigger] all[a]).0 != (#[trigger] all[b]).0 by {
        if b < own.len() {
            assert(all[a] == own[a] && all[b] == own[b]);
        } else if a >= own.len() {
            assert(all[a] == inherited[a - own.len()] && all[b] == inherited[b - own.len()]);
        } else {
            assert(all[a] == own[a]);
            let k = b - own.len();
            assert(all[b] == inherited[k]);
            lemma_filter_member(defaults, keep, k);
            let j = choose|j: int| 0 <= j < defaults.len() && defaults[j] == inherited[k] && keep(defaults[j]);
            assert(normalized(defaults[j].0) == defaults[j].0);
            lemma_key_index(own, defaults[j].0);
            assert(own[a].0 != defaults[j].0);
        }
    }
    assert forall|key: Seq<char>| (#[trigger] resolve(view, key)) is Some <==> exists|i: int|
        0 <= i < all.len() && (#[trigger] all[i]).0 == normalized(key) by {
        let n = normalized(key);
        lemma_key_index(own, n);
        lemma_key_index(defaults, n);
        if resolve(view, key) is Some {
            let io = key_index(own, n);
            if io >= 0 {
                assert(all[io] == own[io]);
            } else {
                let jd = key_index(defaults, n);
                assert(normalized(defaults[jd].0) == defaults[jd].0);
                assert(keep(defaults[jd]));
                defaults.lemma_filter_contains(keep, jd);
                let k = choose|k: int| 0 <= k < inherited.len() && inherited[k] == defaults[jd];
                assert(all[own.len() + k] == inherited[k]);
            }
        }
        if exists|i: int| 0 <= i < all.len() && (#[trigger] all[i]).0 == n {
            let i = choose|i: int| 0 <= i < all.len() && (#[trigger] all[i]).0 == n;
            assert(resolve(view, all[i].0) == Some(all[i].1));
        }
    }
}

} // verus!
