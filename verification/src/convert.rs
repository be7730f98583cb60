//! Converting the case of strings.
//!
//! A string is held as a sequence of word fragments, each either a view
//! into the original text or a freshly allocated replacement. Changing the
//! case rewrites only the words that are not already in the target case,
//! and remembers the original text for as long as it is still reproducible.

use vstd::prelude::*;
use vstd::string::*;
use crate::chars::{is_upper, is_lower, lower_of, upper_of, str_to_lowercase, str_to_uppercase};
use crate::splitting::{split_sep_spec, split_cap_spec, join_spec, lemma_split_sep_segment,
    lemma_split_sep_whole, lemma_cap_break_unique, lemma_join_split_sep, lemma_join_split_cap,
    lemma_join_push};

verus! {

/// One word of a [`CapitalizedString`]: either a view into the source text
/// or an owned buffer that replaced it.
#[derive(Debug)]
pub enum Fragment<'a> {
    /// A view into the source text.
    Borrowed(&'a str),
    /// An independently owned buffer.
    Owned(String),
}

impl<'a> View for Fragment<'a> {
    type V = Seq<char>;

    open spec fn view(&self) -> Seq<char> {
        match self {
            Fragment::Borrowed(s) => s@,
            Fragment::Owned(s) => s@,
        }
    }
}

impl<'a> Fragment<'a> {
    /// The characters of this fragment.
    pub fn as_str(&self) -> (r: &str)
        ensures
            r@ == self@,
    {
        match self {
            Fragment::Borrowed(s) => s,
            Fragment::Owned(s) => s.as_str(),
        }
    }

    /// A borrowed fragment viewing this fragment's characters.
    pub fn reborrow(&self) -> (r: Fragment<'_>)
        ensures
            r@ == self@,
            r is Borrowed,
    {
        Fragment::Borrowed(self.as_str())
    }

    /// Whether this fragment still views the source text.
    pub fn is_borrowed(&self) -> (r: bool)
        ensures
            r == (self is Borrowed),
    {
        match self {
            Fragment::Borrowed(_) => true,
            Fragment::Owned(_) => false,
        }
    }
}

/// The views of a sequence of fragments.
pub open spec fn frag_views(ws: Seq<Fragment>) -> Seq<Seq<char>> {
    ws.map_values(|w: Fragment| w@)
}

/// Different cases a word can be in.
#[derive(Debug, Clone, Copy, PartialEq, Eq, Structural, Hash)]
pub enum WordCase {
    /// All characters are lowercase, or don't have a case.
    Lower,
    /// All characters are uppercase, or don't have a case.
    Upper,
    /// The first character is uppercase or doesn't have a case, the rest
    /// are lowercase or don't have a case.
    Capitalized,
}

impl WordCase {
    /// Whether the word violates this case: some character has the
    /// opposite case. Case-less characters never violate anything, and
    /// empty words are in every case.
    pub open spec fn spec_not_in_case(self, w: Seq<char>) -> bool {
        match self {
            WordCase::Lower => exists|i: int| 0 <= i < w.len() && is_upper(w[i]),
            WordCase::Upper => exists|i: int| 0 <= i < w.len() && is_lower(w[i]),
            WordCase::Capitalized => w.len() > 0 && (is_lower(w[0]) || exists|i: int|
                1 <= i < w.len() && is_upper(w[i])),
        }
    }

    /// The word rewritten into this case. A word already in the case
    /// stays exactly as it is; empty words are in every case.
    pub open spec fn spec_convert(self, w: Seq<char>) -> Seq<char> {
        if !self.spec_not_in_case(w) {
            w
        } else {
            match self {
                WordCase::Lower => lower_of(w),
                WordCase::Upper => upper_of(w),
                WordCase::Capitalized => upper_of(w.take(1)) + lower_of(w.skip(1)),
            }
        }
    }

    /// Whether the word holds this case, per [`WordCase::spec_not_in_case`].
    pub fn word_not_in_case(self, word: &str) -> (r: bool)
        ensures
            r == self.spec_not_in_case(word@),
    {
        match self {
            WordCase::Lower => contains_upper_from(word, 0),
            WordCase::Upper => contains_lower_from(word, 0),
            WordCase::Capitalized => {
                if word.unicode_len() == 0 {
                    false
                } else {
                    word.get_char(0).is_lowercase() || contains_upper_from(word, 1)
                }
            },
        }
    }

    /// Rewrites the word into this case. A word that is empty or already
    /// in the case is returned as it came, without allocation.
    pub fn convert<'a>(self, word: Fragment<'a>) -> (r: Fragment<'a>)
        ensures
            r@ == self.spec_convert(word@),
            !self.spec_not_in_case(word@) ==> r == word,
    {
        if !self.word_not_in_case(word.as_str()) {
            return word;
        }
        let len = word.as_str().unicode_len();
        match self {
            WordCase::Lower => Fragment::Owned(str_to_lowercase(word.as_str())),
            WordCase::Upper => Fragment::Owned(str_to_uppercase(word.as_str())),
            WordCase::Capitalized => {
                let s = word.as_str();
                let head = s.substring_char(0, 1);
                let tail = s.substring_char(1, len);
                proof {
                    assert(head@ =~= word@.take(1));
                    assert(tail@ =~= word@.skip(1));
                }
                let mut out = str_to_uppercase(head);
                let low_tail = str_to_lowercase(tail);
                out.append(low_tail.as_str());
                Fragment::Owned(out)
            },
        }
    }

    /// Rewrites the word only when a target case is given and the word is
    /// not already in it; records in `has_changed` whether it did.
    pub fn conver_if_needed<'a>(
        case: Option<WordCase>,
        word: Fragment<'a>,
        has_changed: &mut bool,
    ) -> (r: Fragment<'a>)
        ensures
            case matches Some(c) ==> (if c.spec_not_in_case(word@) {
                r@ == c.spec_convert(word@) && *final(has_changed)
            } else {
                r == word && *final(has_changed) == *old(has_changed)
            }),
            case is None ==> r == word && *final(has_changed) == *old(has_changed),
    {
        match case {
            Some(case) => {
                if case.word_not_in_case(word.as_str()) {
                    *has_changed = true;
                    case.convert(word)
                } else {
                    word
                }
            },
            None => word,
        }
    }
}

/// Different cases a sequence of words can be in.
#[derive(Debug, Clone, Copy, Hash)]
pub enum Case {
    /// The first word is lowercase and the rest are capitalized. There is
    /// no separator.
    Camel,
    /// Each word is in `case` (none means mixed case, leave words alone),
    /// separated by `seperator` if it is present.
    Other {
        /// The [`WordCase`] for each word, or `None` for mixed case.
        case: Option<WordCase>,
        /// The word separator, if any.
        seperator: Option<char>,
    },
}

impl PartialEq for Case {
    fn eq(&self, other: &Case) -> (r: bool) {
        match (self, other) {
            (Case::Camel, Case::Camel) => true,
            (
                Case::Other { case: c1, seperator: s1 },
                Case::Other { case: c2, seperator: s2 },
            ) => {
                let cases_eq = match (c1, c2) {
                    (None, None) => true,
                    (Some(a), Some(b)) => a == b,
                    _ => false,
                };
                let seps_eq = match (s1, s2) {
                    (None, None) => true,
                    (Some(a), Some(b)) => a == b,
                    _ => false,
                };
                cases_eq && seps_eq
            },
            _ => false,
        }
    }
}

impl Eq for Case {}

impl vstd::std_specs::cmp::PartialEqSpecImpl for Case {
    open spec fn obeys_eq_spec() -> bool {
        true
    }

    open spec fn eq_spec(&self, other: &Case) -> bool {
        *self == *other
    }
}

impl Case {
    /// All words capitalized, no separator.
    pub fn pascal() -> (c: Case)
        ensures
            c == (Case::Other { case: Some(WordCase::Capitalized), seperator: None }),
    {
        Case::Other { case: Some(WordCase::Capitalized), seperator: None }
    }

    /// All words lowercase, separated by `'_'`.
    pub fn snake() -> (c: Case)
        ensures
            c == (Case::Other { case: Some(WordCase::Lower), seperator: Some('_') }),
    {
        Case::Other { case: Some(WordCase::Lower), seperator: Some('_') }
    }

    /// All words uppercase, separated by `'_'`.
    pub fn screaming_snake() -> (c: Case)
        ensures
            c == (Case::Other { case: Some(WordCase::Upper), seperator: Some('_') }),
    {
        Case::Other { case: Some(WordCase::Upper), seperator: Some('_') }
    }

    /// All words lowercase, separated by `'-'`.
    pub fn kebab() -> (c: Case)
        ensures
            c == (Case::Other { case: Some(WordCase::Lower), seperator: Some('-') }),
    {
        Case::Other { case: Some(WordCase::Lower), seperator: Some('-') }
    }

    /// All words uppercase, separated by `' '`.
    pub fn upper() -> (c: Case)
        ensures
            c == (Case::Other { case: Some(WordCase::Upper), seperator: Some(' ') }),
    {
        Case::Other { case: Some(WordCase::Upper), seperator: Some(' ') }
    }

    /// All words lowercase, separated by `' '`.
    pub fn lower() -> (c: Case)
        ensures
            c == (Case::Other { case: Some(WordCase::Lower), seperator: Some(' ') }),
    {
        Case::Other { case: Some(WordCase::Lower), seperator: Some(' ') }
    }

    /// Creates a new case scheme from a word case and an optional separator.
    pub fn new(case: WordCase, seperator: Option<char>) -> (c: Case)
        ensures
            c == (Case::Other { case: Some(case), seperator }),
    {
        Case::Other { case: Some(case), seperator }
    }

    /// The separator of this case scheme, if any.
    pub open spec fn spec_seperator(self) -> Option<char> {
        match self {
            Case::Camel => None,
            Case::Other { seperator, .. } => seperator,
        }
    }

    /// The separator of this case scheme, if any.
    pub fn seperator(self) -> (r: Option<char>)
        ensures
            r == self.spec_seperator(),
    {
        match self {
            Case::Camel => None,
            Case::Other { seperator, .. } => seperator,
        }
    }

    /// The case the word at index `i` is rewritten into, if any.
    pub open spec fn word_target(self, i: int) -> Option<WordCase> {
        match self {
            Case::Camel => if i == 0 {
                Some(WordCase::Lower)
            } else {
                Some(WordCase::Capitalized)
            },
            Case::Other { case, .. } => case,
        }
    }

    /// Whether conversion rewrites the word at index `i`.
    pub open spec fn applied_at(self, ws: Seq<Seq<char>>, i: int) -> bool {
        self.word_target(i) matches Some(c) && c.spec_not_in_case(ws[i])
    }

    /// The word at index `i` after conversion.
    pub open spec fn converted_word(self, ws: Seq<Seq<char>>, i: int) -> Seq<char> {
        match self.word_target(i) {
            Some(c) => if c.spec_not_in_case(ws[i]) {
                c.spec_convert(ws[i])
            } else {
                ws[i]
            },
            None => ws[i],
        }
    }

    /// Whether conversion rewrites any word at all.
    pub open spec fn any_applied(self, ws: Seq<Seq<char>>) -> bool {
        exists|i: int| 0 <= i < ws.len() && self.applied_at(ws, i)
    }

    /// Splits `data` at the separator if one is given, else at
    /// capitalization boundaries.
    pub fn split<'a>(seperator: Option<char>, data: &'a str) -> (r: Vec<Fragment<'a>>)
        ensures
            frag_views(r@) == match seperator {
                Some(c) => split_sep_spec(data@, c),
                None => split_cap_spec(data@),
            },
            forall|i: int| 0 <= i < r@.len() ==> r@[i] is Borrowed,
    {
        match seperator {
            Some(sep) => Case::split_seperator(data, sep),
            None => Case::split_capitalized(data),
        }
    }

    /// Splits `data` at every occurrence of `seperator`; empty pieces are
    /// kept.
    pub fn split_seperator<'a>(data: &'a str, seperator: char) -> (r: Vec<Fragment<'a>>)
        ensures
            frag_views(r@) == split_sep_spec(data@, seperator),
            forall|i: int| 0 <= i < r@.len() ==> r@[i] is Borrowed,
    {
        let n = data.unicode_len();
        let mut out: Vec<Fragment<'a>> = Vec::new();
        let mut start: usize = 0;
        let mut i: usize = 0;
        proof {
            assert(data@.skip(0) =~= data@);
        }
        while i < n
            invariant
                start <= i <= n,
                n as int == data@.len(),
                frag_views(out@) + split_sep_spec(data@.skip(start as int), seperator)
                    =~~= split_sep_spec(data@, seperator),
                forall|j: int| start <= j < i ==> data@[j] != seperator,
                forall|k: int| 0 <= k < out@.len() ==> out@[k] is Borrowed,
            decreases n - i,
        {
            if data.get_char(i) == seperator {
                let w = data.substring_char(start, i);
                proof {
                    let wv = data@.subrange(start as int, i as int);
                    assert(data@.skip(start as int) =~= wv + seq![seperator] + data@.skip(
                        i as int + 1,
                    ));
                    lemma_split_sep_segment(wv, data@.skip(i as int + 1), seperator);
                    assert(frag_views(out@.push(Fragment::Borrowed(w))) =~~= frag_views(
                        out@,
                    ).push(w@));
                }
                out.push(Fragment::Borrowed(w));
                start = i + 1;
            }
            i += 1;
        }
        let w = data.substring_char(start, n);
        proof {
            let wv = data@.subrange(start as int, n as int);
            assert(data@.skip(start as int) =~= wv);
            lemma_split_sep_whole(wv, seperator);
            assert(frag_views(out@.push(Fragment::Borrowed(w))) =~~= frag_views(out@).push(w@));
            assert(frag_views(out@).push(w@) =~~= frag_views(out@) + seq![wv]);
        }
        out.push(Fragment::Borrowed(w));
        out
    }

    /// Splits `data` at capitalization boundaries: a new word begins at
    /// every uppercase character except the first character of the text.
    pub fn split_capitalized<'a>(data: &'a str) -> (r: Vec<Fragment<'a>>)
        ensures
            frag_views(r@) == split_cap_spec(data@),
            forall|i: int| 0 <= i < r@.len() ==> r@[i] is Borrowed,
    {
        let n = data.unicode_len();
        let mut out: Vec<Fragment<'a>> = Vec::new();
        if n == 0 {
            proof {
                assert(frag_views(out@) =~~= split_cap_spec(data@));
            }
            return out;
        }
        let mut start: usize = 0;
        let mut i: usize = 1;
        proof {
            assert(data@.skip(0) =~= data@);
        }
        while i < n
            invariant
                start < i <= n,
                n as int == data@.len(),
                frag_views(out@) + split_cap_spec(data@.skip(start as int)) =~~= split_cap_spec(
                    data@,
                ),
                forall|j: int| start < j < i ==> !is_upper(data@[j]),
                forall|k: int| 0 <= k < out@.len() ==> out@[k] is Borrowed,
            decreases n - i,
        {
            if data.get_char(i).is_uppercase() {
                let w = data.substring_char(start, i);
                proof {
                    let t = data@.skip(start as int);
                    let k = i - start;
                    assert forall|j: int| 1 <= j < k implies !is_upper(t[j]) by {
                        assert(t[j] == data@[start + j]);
                    }
                    assert(t[k] == data@[i as int]);
                    lemma_cap_break_unique(t, k);
                    assert(t.take(k) =~= data@.subrange(start as int, i as int));
                    assert(t.skip(k) =~= data@.skip(i as int));
                    assert(frag_views(out@.push(Fragment::Borrowed(w))) =~~= frag_views(
                        out@,
                    ).push(w@));
                }
                out.push(Fragment::Borrowed(w));
                start = i;
            }
            i += 1;
        }
        let w = data.substring_char(start, n);
        proof {
            let t = data@.skip(start as int);
            let k = n - start;
            assert forall|j: int| 1 <= j < k implies !is_upper(t[j]) by {
                assert(t[j] == data@[start + j]);
            }
            lemma_cap_break_unique(t, k);
            assert(t.take(k) =~= data@.subrange(start as int, n as int));
            assert(t.skip(k) =~= Seq::<char>::empty());
            assert(split_cap_spec(t.skip(k)) =~~= Seq::<Seq<char>>::empty());
            assert(frag_views(out@.push(Fragment::Borrowed(w))) =~~= frag_views(out@).push(w@));
        }
        out.push(Fragment::Borrowed(w));
        out
    }

    /// Converts every word into the case this scheme asks of it, and
    /// reports whether any word was rewritten.
    pub fn convert<'a>(self, data: Vec<Fragment<'a>>) -> (r: (bool, Vec<Fragment<'a>>))
        ensures
            r.1@.len() == data@.len(),
            forall|i: int| 0 <= i < data@.len() ==> r.1@[i]@ == self.converted_word(
                frag_views(data@),
                i,
            ),
            forall|i: int|
                0 <= i < data@.len() && !self.applied_at(frag_views(data@), i) ==> r.1@[i]
                    == data@[i],
            r.0 == self.any_applied(frag_views(data@)),
    {
        let ghost ws = frag_views(data@);
        let ghost orig = data@;
        let mut input = data;
        let mut out: Vec<Fragment<'a>> = Vec::new();
        let mut has_changed = false;
        while input.len() > 0
            invariant
                ws == frag_views(orig),
                out@.len() + input@.len() == orig.len(),
                input@ =~= orig.skip(out@.len() as int),
                forall|i: int| 0 <= i < out@.len() ==> out@[i]@ == self.converted_word(ws, i),
                forall|i: int|
                    0 <= i < out@.len() && !self.applied_at(ws, i) ==> out@[i] == orig[i],
                has_changed == exists|i: int| 0 <= i < out@.len() && self.applied_at(ws, i),
            decreases input@.len(),
        {
            let w = input.remove(0);
            proof {
                assert(w == orig[out@.len() as int]);
            }
            let ghost idx = out@.len() as int;
            let target: Option<WordCase> = match self {
                Case::Camel => if out.len() == 0 {
                    Some(WordCase::Lower)
                } else {
                    Some(WordCase::Capitalized)
                },
                Case::Other { case, .. } => case,
            };
            proof {
                assert(target == self.word_target(idx));
            }
            let converted = WordCase::conver_if_needed(target, w, &mut has_changed);
            out.push(converted);
            proof {
                assert(ws[idx] == w@);
                let new_len = out@.len() as int;
                if self.applied_at(ws, idx) {
                    assert(0 <= idx < new_len && self.applied_at(ws, idx));
                } else {
                    if has_changed {
                        let i0 = choose|i: int| 0 <= i < idx && self.applied_at(ws, i);
                        assert(0 <= i0 < new_len && self.applied_at(ws, i0));
                    } else {
                        assert forall|i: int| 0 <= i < new_len implies !self.applied_at(
                            ws,
                            i,
                        ) by {
                            if i < idx {
                            } else {
                                assert(i == idx);
                            }
                        }
                    }
                }
            }
        }
        (has_changed, out)
    }
}

/// The case scheme that a scan of raw text infers, given an optional
/// separator: with a separator, mixed word case; without one, the scheme
/// follows which letter cases occur and whether the first character is
/// uppercase.
pub open spec fn detect_case(t: Seq<char>, seperator: Option<char>) -> Case {
    match seperator {
        Some(c) => Case::Other { case: None, seperator: Some(c) },
        None => if t.len() == 0 {
            Case::Other { case: Some(WordCase::Lower), seperator: Some(' ') }
        } else {
            let has_lower = exists|i: int| 0 <= i < t.len() && is_lower(t[i]);
            let has_upper = exists|i: int| 0 <= i < t.len() && is_upper(t[i]);
            if !has_upper {
                Case::Other { case: Some(WordCase::Lower), seperator: Some(' ') }
            } else if !has_lower {
                Case::Other { case: Some(WordCase::Upper), seperator: Some(' ') }
            } else if is_upper(t[0]) {
                Case::Other { case: Some(WordCase::Capitalized), seperator: None }
            } else {
                Case::Camel
            }
        },
    }
}

/// The word delimiters among `' '`, `'-'` and `'_'` that occur in `t`,
/// each once, in order of first occurrence.
pub open spec fn found_delims(t: Seq<char>) -> Seq<char>
    decreases t.len(),
{
    if t.len() == 0 {
        Seq::empty()
    } else {
        let p = found_delims(t.drop_last());
        let c = t.last();
        if is_delim(c) && !p.contains(c) {
            p.push(c)
        } else {
            p
        }
    }
}

/// Whether `c` is one of the recognized word delimiters.
pub open spec fn is_delim(c: char) -> bool {
    c == ' ' || c == '-' || c == '_'
}

/// The separator that parsing chooses for `t`: the single delimiter that
/// occurs, or none.
pub open spec fn chosen_seperator(t: Seq<char>) -> Option<char> {
    if found_delims(t).len() == 0 {
        None
    } else {
        Some(found_delims(t)[0])
    }
}

/// The case scheme that parsing infers for `t`.
pub open spec fn parsed_case(t: Seq<char>) -> Case {
    detect_case(t, chosen_seperator(t))
}

/// The words that parsing splits `t` into.
pub open spec fn parsed_words(t: Seq<char>) -> Seq<Seq<char>> {
    match parsed_case(t).spec_seperator() {
        Some(c) => split_sep_spec(t, c),
        None => split_cap_spec(t),
    }
}

/// An error denoting that different separators were found. Expected
/// delimiters are `' '`, `'-'` and `'_'`.
#[derive(Debug, PartialEq, Eq)]
pub struct MixedSeperators {
    /// The delimiters that were found, in order of first occurrence.
    pub delims: Vec<char>,
}

impl View for MixedSeperators {
    type V = Seq<char>;

    open spec fn view(&self) -> Seq<char> {
        self.delims@
    }
}

/// A string held as an ordered sequence of word fragments, so that its
/// case can be changed cheaply. As long as nothing observable changed,
/// the original text is kept and rendering returns it verbatim.
#[derive(Debug)]
pub struct CapitalizedString<'a> {
    /// The full source text, while it is still reproducible verbatim.
    pub original_data: Option<&'a str>,
    /// The held word fragments, in order.
    pub words: Vec<Fragment<'a>>,
    /// The case scheme currently in force.
    pub case: Case,
}

impl<'a> CapitalizedString<'a> {
    /// The characters of the original text, while it is still present.
    pub open spec fn original_view(self) -> Option<Seq<char>> {
        match self.original_data {
            Some(o) => Some(o@),
            None => None,
        }
    }

    /// The characters of each held word.
    pub open spec fn word_views(self) -> Seq<Seq<char>> {
        frag_views(self.words@)
    }

    /// The case scheme currently in force.
    pub open spec fn spec_case(self) -> Case {
        self.case
    }

    /// The original text, if present, is exactly the joined words: the
    /// zero-copy fast path never returns stale text.
    pub open spec fn wf(self) -> bool {
        match self.original_data {
            Some(o) => join_spec(self.word_views(), self.case.spec_seperator()) == o@,
            None => true,
        }
    }

    /// What rendering returns: the original text while it is present,
    /// else the words joined with the current separator.
    pub open spec fn rendered(self) -> Seq<char> {
        match self.original_data {
            Some(o) => o@,
            None => join_spec(self.word_views(), self.case.spec_seperator()),
        }
    }

    /// Splits `data` at `seperator` if given, else at capitalized letters,
    /// inferring the case scheme from the text.
    pub fn new(data: &'a str, seperator: Option<char>) -> (r: Self)
        ensures
            r.wf(),
            r.original_data matches Some(o) && o@ == data@,
            r.case == detect_case(data@, seperator),
            r.word_views() == match r.case.spec_seperator() {
                Some(c) => split_sep_spec(data@, c),
                None => split_cap_spec(data@),
            },
            forall|i: int| 0 <= i < r.words@.len() ==> r.words@[i] is Borrowed,
    {
        let case = match seperator {
            Some(sep) => Case::Other { case: None, seperator: Some(sep) },
            None => {
                let n = data.unicode_len();
                if n == 0 {
                    Case::lower()
                } else {
                    let is_first_upper = data.get_char(0).is_uppercase();
                    let contains_lower = contains_lower_from(data, 0);
                    let contains_upper = contains_upper_from(data, 0);
                    if !contains_upper {
                        Case::lower()
                    } else if !contains_lower {
                        Case::upper()
                    } else if is_first_upper {
                        Case::pascal()
                    } else {
                        Case::Camel
                    }
                }
            },
        };
        let sep = case.seperator();
        let split = Case::split(sep, data);
        match sep {
            Some(c) => {
                proof {
                    lemma_join_split_sep(data@, c);
                }
            },
            None => {
                proof {
                    lemma_join_split_cap(data@);
                }
            },
        }
        Self::from_words_unchecked(Some(data), split, case)
    }

    /// Creates a new `CapitalizedString` from `words` and `seperator`,
    /// with mixed word case and no reproducible original text.
    pub fn from_words(words: Vec<Fragment<'a>>, seperator: Option<char>) -> (r: Self)
        ensures
            r.original_data is None,
            r.words@ == words@,
            r.case == (Case::Other { case: None, seperator }),
            r.wf(),
    {
        Self::from_words_unchecked(None, words, Case::Other { case: None, seperator })
    }

    /// Assembles a `CapitalizedString` from its parts. The caller owes the
    /// fast-path invariant: original text given means the joined words
    /// reproduce it.
    pub fn from_words_unchecked(
        original_data: Option<&'a str>,
        words: Vec<Fragment<'a>>,
        case: Case,
    ) -> (r: Self)
        requires
            original_data matches Some(o) ==> join_spec(frag_views(words@), case.spec_seperator())
                == o@,
        ensures
            r.original_data == original_data,
            r.words@ == words@,
            r.case == case,
            r.wf(),
    {
        Self { original_data, words, case }
    }

    /// Parses `data`, inferring the separator, and changes its case to
    /// `into_case`.
    ///
    /// # Errors
    /// Relays [`MixedSeperators`] from [`CapitalizedString::try_from`].
    pub fn new_into(data: &'a str, into_case: Case) -> (r: Result<Self, MixedSeperators>)
        ensures
            (found_delims(data@).len() >= 2) <==> r is Err,
            r matches Err(e) ==> e@ == found_delims(data@),
            r matches Ok(cs) ==> ({
                &&& cs.wf()
                &&& cs.case == into_case
                &&& cs.words@.len() == parsed_words(data@).len()
                &&& if parsed_case(data@) == into_case {
                    cs.word_views() == parsed_words(data@)
                } else {
                    forall|i: int|
                        0 <= i < cs.words@.len() ==> cs.words@[i]@ == into_case.converted_word(
                            parsed_words(data@),
                            i,
                        )
                }
            }),
    {
        match Self::try_from(data) {
            Ok(cs) => Ok(cs.into_case(into_case)),
            Err(e) => Err(e),
        }
    }

    /// A chainable variant of [`CapitalizedString::change_case`].
    pub fn into_case(self, case: Case) -> (r: Self)
        requires
            self.wf(),
        ensures
            r.wf(),
            self.case == case ==> r == self,
            self.case != case ==> ({
                &&& r.case == case
                &&& r.words@.len() == self.words@.len()
                &&& forall|i: int|
                    0 <= i < self.words@.len() ==> r.words@[i]@ == case.converted_word(
                        self.word_views(),
                        i,
                    )
                &&& forall|i: int|
                    0 <= i < self.words@.len() && !case.applied_at(self.word_views(), i)
                        ==> r.words@[i] == self.words@[i]
                &&& r.original_data == (if case.any_applied(self.word_views()) || (
                self.words@.len() > 1 && self.case.spec_seperator() != case.spec_seperator()) {
                    None::<&'a str>
                } else {
                    self.original_data
                })
            }),
    {
        let mut this = self;
        this.change_case(case);
        this
    }

    /// Changes the case of `self` to `case`. Keeps the old fragments where
    /// nothing needs to change, and keeps the original text unless a word
    /// was rewritten or the separator changed while more than one word
    /// exists.
    pub fn change_case(&mut self, case: Case)
        requires
            old(self).wf(),
        ensures
            final(self).wf(),
            old(self).case == case ==> *final(self) == *old(self),
            old(self).case != case ==> ({
                &&& final(self).case == case
                &&& final(self).words@.len() == old(self).words@.len()
                &&& forall|i: int|
                    0 <= i < old(self).words@.len() ==> final(self).words@[i]@
                        == case.converted_word(old(self).word_views(), i)
                &&& forall|i: int|
                    0 <= i < old(self).words@.len() && !case.applied_at(
                        old(self).word_views(),
                        i,
                    ) ==> final(self).words@[i] == old(self).words@[i]
                &&& final(self).original_data == (if case.any_applied(old(self).word_views()) || (
                old(self).words@.len() > 1 && old(self).case.spec_seperator()
                    != case.spec_seperator()) {
                    None::<&'a str>
                } else {
                    old(self).original_data
                })
            }),
    {
        if self.case == case {
            return;
        }
        let old_sep = self.case.seperator();
        let new_sep = case.seperator();
        let many = self.words.len() > 1;
        let mut taken: Vec<Fragment<'a>> = Vec::new();
        core::mem::swap(&mut taken, &mut self.words);
        let (changed, data) = case.convert(taken);
        if changed || (many && !opt_char_eq(old_sep, new_sep)) {
            self.original_data = None;
        }
        self.words = data;
        self.case = case;
        proof {
            let ws_old = old(self).word_views();
            if self.original_data is Some {
                assert(!case.any_applied(ws_old));
                assert forall|i: int| 0 <= i < ws_old.len() implies self.words@[i]
                    == old(self).words@[i] by {
                    assert(!case.applied_at(ws_old, i));
                }
                assert(self.word_views() =~~= ws_old);
                if old(self).words@.len() <= 1 {
                    if ws_old.len() == 0 {
                        assert(join_spec(ws_old, old(self).case.spec_seperator())
                            == join_spec(ws_old, case.spec_seperator()));
                    } else {
                        assert(ws_old.len() == 1);
                        assert(join_spec(ws_old, old(self).case.spec_seperator()) == ws_old[0]);
                        assert(join_spec(ws_old, case.spec_seperator()) == ws_old[0]);
                    }
                } else {
                    assert(old(self).case.spec_seperator() == case.spec_seperator());
                }
                assert(self.wf());
            }
        }
    }

    /// Copies every borrowed fragment so that the result no longer views
    /// the source text.
    pub fn into_owned(self) -> (r: CapitalizedString<'static>)
        ensures
            r.original_data is None,
            r.case == self.case,
            r.word_views() == self.word_views(),
            forall|i: int| 0 <= i < r.words@.len() ==> r.words@[i] is Owned,
            r.wf(),
    {
        let ghost orig = self.words@;
        let mut input = self.words;
        let mut out: Vec<Fragment<'static>> = Vec::new();
        while input.len() > 0
            invariant
                out@.len() + input@.len() == orig.len(),
                input@ =~= orig.skip(out@.len() as int),
                forall|i: int| 0 <= i < out@.len() ==> out@[i]@ == orig[i]@,
                forall|i: int| 0 <= i < out@.len() ==> out@[i] is Owned,
            decreases input@.len(),
        {
            let w = input.remove(0);
            let owned: Fragment<'static> = match w {
                Fragment::Borrowed(s) => Fragment::Owned(s.to_owned()),
                Fragment::Owned(s) => Fragment::Owned(s),
            };
            out.push(owned);
        }
        proof {
            assert(frag_views(out@) =~~= frag_views(orig));
        }
        CapitalizedString::from_words_unchecked(None, out, self.case)
    }

    /// Renders the held words as text: the original text verbatim while it
    /// is present, else the words joined with the current separator.
    pub fn to_text(&self) -> (r: String)
        ensures
            r@ == self.rendered(),
    {
        match self.original_data {
            Some(o) => o.to_owned(),
            None => join_words(&self.words, self.case.seperator()),
        }
    }

    /// Parses `data`, choosing the single delimiter character among
    /// `' '`, `'-'` and `'_'` that occurs in it, if any.
    ///
    /// # Errors
    /// Fails with [`MixedSeperators`] when two or more distinct delimiter
    /// characters occur, since no single separator can be chosen.
    pub fn try_from(value: &'a str) -> (r: Result<Self, MixedSeperators>)
        ensures
            (found_delims(value@).len() >= 2) <==> r is Err,
            r matches Err(e) ==> e@ == found_delims(value@),
            r matches Ok(cs) ==> ({
                &&& cs.wf()
                &&& cs.original_data matches Some(o) && o@ == value@
                &&& cs.case == parsed_case(value@)
                &&& cs.word_views() == parsed_words(value@)
                &&& forall|i: int| 0 <= i < cs.words@.len() ==> cs.words@[i] is Borrowed
            }),
    {
        let n = value.unicode_len();
        let mut found: Vec<char> = Vec::new();
        let mut i: usize = 0;
        proof {
            assert(value@.take(0) =~= Seq::<char>::empty());
        }
        while i < n
            invariant
                i <= n,
                n as int == value@.len(),
                found@ == found_delims(value@.take(i as int)),
            decreases n - i,
        {
            let c = value.get_char(i);
            if (c == ' ' || c == '-' || c == '_') && !vec_contains_char(&found, c) {
                found.push(c);
            }
            proof {
                assert(value@.take(i + 1).drop_last() =~= value@.take(i as int));
                assert(value@.take(i + 1).last() == value@[i as int]);
            }
            i += 1;
        }
        proof {
            assert(value@.take(n as int) =~= value@);
        }
        if found.len() == 0 {
            Ok(CapitalizedString::new(value, None))
        } else if found.len() == 1 {
            let sep = found[0];
            Ok(CapitalizedString::new(value, Some(sep)))
        } else {
            Err(MixedSeperators { delims: found })
        }
    }
}

/// Joins the words with the separator between adjacent words.
fn join_words(words: &Vec<Fragment>, sep: Option<char>) -> (r: String)
    ensures
        r@ == join_spec(frag_views(words@), sep),
{
    let ghost ws = frag_views(words@);
    let mut out = String::new();
    let mut i: usize = 0;
    proof {
        assert(ws.take(0) =~~= Seq::<Seq<char>>::empty());
    }
    while i < words.len()
        invariant
            i <= words@.len(),
            ws == frag_views(words@),
            out@ == join_spec(ws.take(i as int), sep),
        decreases words@.len() - i,
    {
        if i > 0 {
            match sep {
                Some(c) => out.push(c),
                None => {},
            }
        }
        out.append(words[i].as_str());
        proof {
            lemma_join_push(ws.take(i as int), sep, ws[i as int]);
            assert(ws.take(i + 1) =~~= ws.take(i as int).push(ws[i as int]));
        }
        i += 1;
    }
    proof {
        assert(ws.take(words@.len() as int) =~~= ws);
    }
    out
}

/// Whether the vector holds the character.
fn vec_contains_char(v: &Vec<char>, c: char) -> (r: bool)
    ensures
        r == v@.contains(c),
{
    let mut i: usize = 0;
    while i < v.len()
        invariant
            i <= v@.len(),
            forall|j: int| 0 <= j < i ==> v@[j] != c,
        decreases v@.len() - i,
    {
        if v[i] == c {
            return true;
        }
        i += 1;
    }
    false
}

/// Compares two optional separator characters.
fn opt_char_eq(a: Option<char>, b: Option<char>) -> (r: bool)
    ensures
        r == (a == b),
{
    match (a, b) {
        (None, None) => true,
        (Some(x), Some(y)) => x == y,
        _ => false,
    }
}

/// Rendering a well-formed string whose original text is still present
/// returns exactly that original text. Together with the contract of
/// [`CapitalizedString::new`], a freshly parsed string renders back to
/// the very text it was parsed from.
pub proof fn lemma_render_preserves_original<'a>(cs: CapitalizedString<'a>, o: Seq<char>)
    requires
        cs.wf(),
        cs.original_view() == Some(o),
    ensures
        cs.rendered() == o,
{
}

/// Converting words that already satisfy the target case rewrites
/// nothing: conversion is idempotent, and, by the contract of
/// [`CapitalizedString::change_case`], such a change keeps every
/// fragment and (separator permitting) the original text.
pub proof fn lemma_conversion_idempotent(case: Case, ws: Seq<Seq<char>>)
    requires
        forall|i: int| 0 <= i < ws.len() ==> !case.applied_at(ws, i),
    ensures
        forall|i: int| 0 <= i < ws.len() ==> case.converted_word(ws, i) == ws[i],
        !case.any_applied(ws),
{
    assert forall|i: int| 0 <= i < ws.len() implies case.converted_word(ws, i) == ws[i] by {
        assert(!case.applied_at(ws, i));
    }
}

/// Whether any character of `w` from index `from` on is uppercase.
fn contains_upper_from(w: &str, from: usize) -> (r: bool)
    requires
        from as int <= w@.len(),
    ensures
        r == exists|i: int| from <= i < w@.len() && is_upper(w@[i]),
{
    let n = w.unicode_len();
    let mut i = from;
    while i < n
        invariant
            from <= i <= n,
            n as int == w@.len(),
            forall|j: int| from <= j < i ==> !is_upper(w@[j]),
        decreases n - i,
    {
        if w.get_char(i).is_uppercase() {
            assert(is_upper(w@[i as int]));
            return true;
        }
        i += 1;
    }
    false
}

/// Whether any character of `w` from index `from` on is lowercase.
fn contains_lower_from(w: &str, from: usize) -> (r: bool)
    requires
        from as int <= w@.len(),
    ensures
        r == exists|i: int| from <= i < w@.len() && is_lower(w@[i]),
{
    let n = w.unicode_len();
    let mut i = from;
    while i < n
        invariant
            from <= i <= n,
            n as int == w@.len(),
            forall|j: int| from <= j < i ==> !is_lower(w@[j]),
        decreases n - i,
    {
        if w.get_char(i).is_lowercase() {
            assert(is_lower(w@[i as int]));
            return true;
        }
        i += 1;
    }
    false
}

} // verus!
