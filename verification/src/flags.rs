//! The flag scanner behind [`crate::args::parse`]: `pico_args::Arguments`,
//! declared here and reached through small wrappers whose contracts say what
//! the crate's source does to the argument list it holds.
//!
//! The list is modelled as the words it still holds, read as text. A flag
//! lookup searches the whole list for its short spelling first, then for its
//! long one, and takes out the first word that matches.

use vstd::prelude::*;

verus! {

/// `pico_args::Arguments`, carried through verified code as an opaque value.
#[verifier::external_type_specification]
#[verifier::external_body]
pub struct ExArguments(pico_args::Arguments);

/// The words a `pico_args::Arguments` still holds, each read as text.
pub uninterp spec fn held_words(a: pico_args::Arguments) -> Seq<Seq<char>>;

/// Whether every word a `pico_args::Arguments` holds is valid UTF-8 (true of
/// every list built from `String`s, and kept by taking words out).
pub uninterp spec fn holds_only_text(a: pico_args::Arguments) -> bool;

/// The first index at or after `i` where `w` holds the word `k`.
pub open spec fn index_from(w: Seq<Seq<char>>, k: Seq<char>, i: int) -> Option<int>
    decreases w.len() - i,
{
    if i < 0 || i >= w.len() {
        None
    } else if w[i] == k {
        Some(i)
    } else {
        index_from(w, k, i + 1)
    }
}

/// The first index where `w` holds the word `k`.
pub open spec fn find_word(w: Seq<Seq<char>>, k: Seq<char>) -> Option<int> {
    index_from(w, k, 0)
}

/// Where a lookup of the keys `first`, then `second`, lands: the first
/// occurrence of `first` if there is one, else the first of `second`. An
/// empty key is never looked for.
#[verifier::opaque]
pub open spec fn key_index(w: Seq<Seq<char>>, first: Seq<char>, second: Seq<char>) -> Option<int> {
    if first.len() > 0 && find_word(w, first) is Some {
        find_word(w, first)
    } else if second.len() > 0 {
        find_word(w, second)
    } else {
        None
    }
}

/// The key a lookup of `first`, then `second`, matched.
#[verifier::opaque]
pub open spec fn matched_key(w: Seq<Seq<char>>, first: Seq<char>, second: Seq<char>) -> Seq<char> {
    if first.len() > 0 && find_word(w, first) is Some {
        first
    } else {
        second
    }
}

/// The words left once a flag lookup took out what it matched.
#[verifier::opaque]
pub open spec fn after_flag(w: Seq<Seq<char>>, first: Seq<char>, second: Seq<char>) -> Seq<
    Seq<char>,
> {
    match key_index(w, first, second) {
        Some(i) => w.remove(i),
        None => w,
    }
}

/// A flag that is absent takes nothing out.
pub proof fn lemma_absent_flag_keeps_words(w: Seq<Seq<char>>, first: Seq<char>, second: Seq<char>)
    requires
        key_index(w, first, second) is None,
    ensures
        after_flag(w, first, second) == w,
{
    reveal(after_flag);
}

/// A short key as `pico_args` accepts it: `-` and one other character.
pub open spec fn short_key(k: Seq<char>) -> bool {
    k.len() == 2 && k[0] == '-' && k[1] != '-'
}

/// A long key as `pico_args` accepts it: `--` and a name.
pub open spec fn long_key(k: Seq<char>) -> bool {
    k.len() > 2 && k[0] == '-' && k[1] == '-'
}

/// What an option lookup found.
#[derive(Debug)]
pub enum ValueLookup {
    /// Neither key is present.
    Absent,
    /// The key was followed by this value.
    Found(String),
    /// The key this lookup matched is the last word: it has no value.
    Dangling(String),
}

/// What an option lookup finds in the words `w`.
pub enum LookupV {
    Absent,
    Found(Seq<char>),
    Dangling(Seq<char>),
}

/// The result of looking up the option `first`/`second` in `w`.
#[verifier::opaque]
pub open spec fn lookup_spec(w: Seq<Seq<char>>, first: Seq<char>, second: Seq<char>) -> LookupV {
    match key_index(w, first, second) {
        None => LookupV::Absent,
        Some(i) => if i + 1 < w.len() {
            LookupV::Found(w[i + 1])
        } else {
            LookupV::Dangling(matched_key(w, first, second))
        },
    }
}

/// The words left after looking up the option `first`/`second` in `w`: the
/// key and its value go, and nothing goes when there is no value.
#[verifier::opaque]
pub open spec fn after_lookup(w: Seq<Seq<char>>, first: Seq<char>, second: Seq<char>) -> Seq<
    Seq<char>,
> {
    match key_index(w, first, second) {
        Some(i) => if i + 1 < w.len() {
            w.remove(i).remove(i)
        } else {
            w
        },
        None => w,
    }
}

impl ValueLookup {
    /// The lookup as plain values.
    pub open spec fn view_spec(&self) -> LookupV {
        match self {
            ValueLookup::Absent => LookupV::Absent,
            ValueLookup::Found(v) => LookupV::Found(v@),
            ValueLookup::Dangling(k) => LookupV::Dangling(k@),
        }
    }
}

/// `pico_args::Arguments::from_vec`, given each word as an `OsString`.
#[verifier::external_body]
pub fn arguments_from(words: Vec<String>) -> (a: pico_args::Arguments)
    ensures
        held_words(a) == words.deep_view(),
        holds_only_text(a),
{
    pico_args::Arguments::from_vec(words.into_iter().map(Into::into).collect())
}

/// `pico_args::Arguments::contains` with a short and a long key: true when
/// either is present, and the first word matching the short key (else the
/// first matching the long one) is taken out. The list must hold text only:
/// `pico_args` compares raw bytes, which is the comparison of the words read
/// as text only when every word is valid UTF-8.
#[verifier::external_body]
pub fn take_flag(a: &mut pico_args::Arguments, short: &'static str, long: &'static str) -> (r:
    bool)
    requires
        holds_only_text(*old(a)),
        short_key(short@),
        long_key(long@),
    ensures
        r == (key_index(held_words(*old(a)), short@, long@) is Some),
        held_words(*final(a)) == after_flag(held_words(*old(a)), short@, long@),
        holds_only_text(*final(a)),
{
    a.contains([short, long])
}

/// `pico_args::Arguments::contains` with a long key alone: true when it is
/// present, and its first occurrence is taken out. The list must hold text
/// only, as for [`take_flag`].
#[verifier::external_body]
pub fn take_long_flag(a: &mut pico_args::Arguments, long: &'static str) -> (r: bool)
    requires
        holds_only_text(*old(a)),
        long_key(long@),
    ensures
        r == (key_index(held_words(*old(a)), long@, Seq::<char>::empty()) is Some),
        held_words(*final(a)) == after_flag(held_words(*old(a)), long@, Seq::<char>::empty()),
        holds_only_text(*final(a)),
{
    a.contains(long)
}

/// `pico_args::Arguments::opt_value_from_str::<_, String>` with a short and a
/// long key. The matched key and the word after it are taken out and the word
/// is returned; a key with no word after it is `OptionWithoutAValue(key)`, and
/// then nothing is taken out. Other errors need a word that is not text, or a
/// `String` that fails to parse, and neither can happen here.
#[verifier::external_body]
pub fn take_value(a: &mut pico_args::Arguments, short: &'static str, long: &'static str) -> (r:
    ValueLookup)
    requires
        holds_only_text(*old(a)),
        short_key(short@),
        long_key(long@),
    ensures
        r.view_spec() == lookup_spec(held_words(*old(a)), short@, long@),
        held_words(*final(a)) == after_lookup(held_words(*old(a)), short@, long@),
        holds_only_text(*final(a)),
{
    match a.opt_value_from_str::<_, String>([short, long]) {
        Ok(None) => ValueLookup::Absent,
        Ok(Some(value)) => ValueLookup::Found(value),
        Err(pico_args::Error::OptionWithoutAValue(key)) => ValueLookup::Dangling(key.to_string()),
        Err(other) => ValueLookup::Dangling(other.to_string()),
    }
}

/// `pico_args::Arguments::finish`: the words it still holds, each converted
/// to a `String` (lossily, which changes nothing for text).
#[verifier::external_body]
pub fn remaining_words(a: pico_args::Arguments) -> (r: Vec<String>)
    requires
        holds_only_text(a),
    ensures
        r.deep_view() == held_words(a),
{
    a.finish().into_iter().map(|w| w.to_string_lossy().into_owned()).collect()
}

} // verus!
