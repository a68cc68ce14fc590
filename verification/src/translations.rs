//! Language preference handling.
//!
//! An `Accept-Language` entry such as `en-US` is parsed into a [`Language`]:
//! a language tag, optionally with a script/region tag, or the catch-all
//! preference.  Parsing normalises case (language lowered, script raised)
//! and ignores any subcomponents past the first two.  Given the languages a
//! task name is available in and the user's ordered preferences,
//! [`find_best_language`] picks the available language the user prefers
//! most.

use vstd::prelude::*;

verus! {

/// A language preference: anything, a bare language, or language and script.
#[derive(Debug, PartialEq, Eq)]
pub enum Language {
    Catchall,
    LanguageOnly(String),
    LanguageScript(String, String),
}

/// Mathematical shape of a [`Language`]: the same three cases over
/// character sequences.
#[verifier::ext_equal]
pub ghost enum LangShape {
    Catchall,
    LanguageOnly(Seq<char>),
    LanguageScript(Seq<char>, Seq<char>),
}

impl View for Language {
    type V = LangShape;

    open spec fn view(&self) -> LangShape {
        match self {
            Language::Catchall => LangShape::Catchall,
            Language::LanguageOnly(l) => LangShape::LanguageOnly(l@),
            Language::LanguageScript(l, s) => LangShape::LanguageScript(l@, s@),
        }
    }
}

impl Clone for Language {
    /// Clones keep the same tags.
    fn clone(&self) -> (r: Self)
        ensures
            r@ == self@,
    {
        match self {
            Language::Catchall => Language::Catchall,
            Language::LanguageOnly(l) => Language::LanguageOnly(l.clone()),
            Language::LanguageScript(l, s) => Language::LanguageScript(l.clone(), s.clone()),
        }
    }
}

/// The canonical text of a preference: empty, `lang`, or `lang-script`.
pub open spec fn spec_tag(l: LangShape) -> Seq<char> {
    match l {
        LangShape::Catchall => Seq::empty(),
        LangShape::LanguageOnly(x) => x,
        LangShape::LanguageScript(x, y) => x + "-"@ + y,
    }
}

impl Language {
    /// Renders the preference back to its canonical text.
    pub fn tag(&self) -> (r: String)
        ensures
            r@ == spec_tag(self@),
    {
        match self {
            Language::Catchall => String::new(),
            Language::LanguageOnly(l) => l.clone(),
            Language::LanguageScript(l, s) => {
                let mut out = l.clone();
                out.append("-");
                out.append(s.as_str());
                out
            },
        }
    }
}

/// How well an available language satisfies a requested one, from no match
/// at all up to an exact language-and-script match.
#[derive(Debug, Clone, Copy, PartialEq, Eq, Structural)]
pub enum MatchLevel {
    NoMatch,
    MatchesCatchall,
    MatchesLanguage,
    MatchesScript,
}

/// Numeric strength of a match level; higher is better.
pub open spec fn spec_rank(m: MatchLevel) -> int {
    match m {
        MatchLevel::NoMatch => 0,
        MatchLevel::MatchesCatchall => 1,
        MatchLevel::MatchesLanguage => 2,
        MatchLevel::MatchesScript => 3,
    }
}

impl MatchLevel {
    /// Numeric strength of this level, for comparisons.
    pub fn rank(&self) -> (r: u8)
        ensures
            r == spec_rank(*self),
    {
        match self {
            MatchLevel::NoMatch => 0,
            MatchLevel::MatchesCatchall => 1,
            MatchLevel::MatchesLanguage => 2,
            MatchLevel::MatchesScript => 3,
        }
    }
}

/// Match level of `language` against the user-requested `requested`: the
/// catch-all request accepts anything; a bare language request matches any
/// available entry with that language; a language-and-script request only
/// matches both tags exactly.
pub open spec fn spec_match_level(requested: LangShape, language: LangShape) -> MatchLevel {
    match requested {
        LangShape::Catchall => MatchLevel::MatchesCatchall,
        LangShape::LanguageOnly(want) => match language {
            LangShape::LanguageOnly(l) => if l == want {
                MatchLevel::MatchesLanguage
            } else {
                MatchLevel::NoMatch
            },
            LangShape::LanguageScript(l, _) => if l == want {
                MatchLevel::MatchesLanguage
            } else {
                MatchLevel::NoMatch
            },
            LangShape::Catchall => MatchLevel::NoMatch,
        },
        LangShape::LanguageScript(want_l, want_s) => match language {
            LangShape::LanguageScript(l, s) => if l == want_l && s == want_s {
                MatchLevel::MatchesScript
            } else {
                MatchLevel::NoMatch
            },
            LangShape::LanguageOnly(_) => MatchLevel::NoMatch,
            LangShape::Catchall => MatchLevel::NoMatch,
        },
    }
}

/// Grades how well `language` satisfies the request `requested`.
pub fn matches(requested: &Language, language: &Language) -> (r: MatchLevel)
    ensures
        r == spec_match_level(requested@, language@),
{
    match requested {
        Language::Catchall => MatchLevel::MatchesCatchall,
        Language::LanguageOnly(want) => match language {
            Language::LanguageOnly(l) => if *l == *want {
                MatchLevel::MatchesLanguage
            } else {
                MatchLevel::NoMatch
            },
            Language::LanguageScript(l, _) => if *l == *want {
                MatchLevel::MatchesLanguage
            } else {
                MatchLevel::NoMatch
            },
            Language::Catchall => MatchLevel::NoMatch,
        },
        Language::LanguageScript(want_l, want_s) => match language {
            Language::LanguageScript(l, s) => if *l == *want_l && *s == *want_s {
                MatchLevel::MatchesScript
            } else {
                MatchLevel::NoMatch
            },
            Language::LanguageOnly(_) => MatchLevel::NoMatch,
            Language::Catchall => MatchLevel::NoMatch,
        },
    }
}

/// Whether a character separates the components of a language specifier.
pub open spec fn spec_is_sep(c: char) -> bool {
    c == '-' || c == '_'
}

/// Index of the first separator in `s`, or `s.len()` when there is none.
pub open spec fn spec_sep_index(s: Seq<char>) -> int
    decreases s.len(),
{
    if s.len() == 0 {
        0
    } else if spec_is_sep(s[0]) {
        0
    } else {
        1 + spec_sep_index(s.drop_first())
    }
}

/// A position preceded only by non-separators, and itself a separator or the
/// end, is exactly where `spec_sep_index` points.
proof fn lemma_sep_index_at(s: Seq<char>, i: int)
    requires
        0 <= i <= s.len(),
        forall|j: int| 0 <= j < i ==> !spec_is_sep(s[j]),
        i < s.len() ==> spec_is_sep(s[i]),
    ensures
        spec_sep_index(s) == i,
    decreases s.len(),
{
    if s.len() == 0 {
    } else if spec_is_sep(s[0]) {
        assert(i == 0);
    } else {
        assert(i >= 1);
        assert forall|j: int| 0 <= j < i - 1 implies !spec_is_sep(s.drop_first()[j]) by {
            assert(s.drop_first()[j] == s[j + 1]);
        }
        lemma_sep_index_at(s.drop_first(), i - 1);
    }
}

/// ASCII upper-case letters lowered; anything else unchanged.
pub open spec fn spec_lower_char(c: char) -> char {
    if 'A' <= c && c <= 'Z' {
        ((c as u8) + 32) as char
    } else {
        c
    }
}

/// ASCII lower-case letters raised; anything else unchanged.
pub open spec fn spec_upper_char(c: char) -> char {
    if 'a' <= c && c <= 'z' {
        ((c as u8) - 32) as char
    } else {
        c
    }
}

/// Character-wise ASCII lower-casing.
pub open spec fn spec_lower(s: Seq<char>) -> Seq<char> {
    s.map_values(|c: char| spec_lower_char(c))
}

/// Character-wise ASCII upper-casing.
pub open spec fn spec_upper(s: Seq<char>) -> Seq<char> {
    s.map_values(|c: char| spec_upper_char(c))
}

/// Lowers one ASCII character.
pub fn to_lower_char(c: char) -> (r: char)
    ensures
        r == spec_lower_char(c),
{
    if 'A' <= c && c <= 'Z' {
        ((c as u8) + 32) as char
    } else {
        c
    }
}

/// Raises one ASCII character.
pub fn to_upper_char(c: char) -> (r: char)
    ensures
        r == spec_upper_char(c),
{
    if 'a' <= c && c <= 'z' {
        ((c as u8) - 32) as char
    } else {
        c
    }
}

/// Relies on `String`'s `FromIterator<char>` implementation: collecting a
/// vector of characters yields the string of exactly those characters.
#[verifier::external_body]
fn chars_to_string(chars: Vec<char>) -> (r: String)
    ensures
        r@ == chars@,
{
    String::from_iter(chars)
}

/// Copies the characters of `s` between `from` and `to`, lower-cased.
fn lower_segment(s: &str, from: usize, to: usize) -> (r: String)
    requires
        from <= to <= s@.len(),
    ensures
        r@ == spec_lower(s@.subrange(from as int, to as int)),
{
    let mut chars: Vec<char> = Vec::new();
    let mut i = from;
    while i < to
        invariant
            from <= i <= to <= s@.len(),
            chars@.len() == i - from,
            forall|j: int| 0 <= j < i - from ==> chars@[j] == spec_lower_char(s@[from + j]),
        decreases to - i,
    {
        chars.push(to_lower_char(s.get_char(i)));
        i = i + 1;
    }
    proof {
        assert(chars@ =~= spec_lower(s@.subrange(from as int, to as int)));
    }
    chars_to_string(chars)
}

/// Copies the characters of `s` between `from` and `to`, upper-cased.
fn upper_segment(s: &str, from: usize, to: usize) -> (r: String)
    requires
        from <= to <= s@.len(),
    ensures
        r@ == spec_upper(s@.subrange(from as int, to as int)),
{
    let mut chars: Vec<char> = Vec::new();
    let mut i = from;
    while i < to
        invariant
            from <= i <= to <= s@.len(),
            chars@.len() == i - from,
            forall|j: int| 0 <= j < i - from ==> chars@[j] == spec_upper_char(s@[from + j]),
        decreases to - i,
    {
        chars.push(to_upper_char(s.get_char(i)));
        i = i + 1;
    }
    proof {
        assert(chars@ =~= spec_upper(s@.subrange(from as int, to as int)));
    }
    chars_to_string(chars)
}

/// Index of the first separator at or after `from`, or the length when
/// there is none before the end.
fn find_separator(s: &str, from: usize) -> (idx: usize)
    requires
        from <= s@.len(),
    ensures
        from <= idx <= s@.len(),
        idx - from == spec_sep_index(s@.subrange(from as int, s@.len() as int)),
        idx < s@.len() ==> spec_is_sep(s@[idx as int]),
        forall|j: int| from <= j < idx ==> !spec_is_sep(s@[j]),
{
    let n = s.unicode_len();
    let mut i = from;
    while i < n
        invariant
            from <= i <= n,
            n == s@.len(),
            forall|j: int| from <= j < i ==> !spec_is_sep(s@[j]),
        decreases n - i,
    {
        let c = s.get_char(i);
        if c == '-' || c == '_' {
            proof {
                let seg = s@.subrange(from as int, n as int);
                assert forall|j: int| 0 <= j < i - from implies !spec_is_sep(seg[j]) by {
                    assert(seg[j] == s@[from + j]);
                }
                assert(seg[i - from] == s@[i as int]);
                lemma_sep_index_at(seg, i - from);
            }
            return i;
        }
        i = i + 1;
    }
    proof {
        let seg = s@.subrange(from as int, n as int);
        assert forall|j: int| 0 <= j < n - from implies !spec_is_sep(seg[j]) by {
            assert(seg[j] == s@[from + j]);
        }
        lemma_sep_index_at(seg, n - from);
    }
    n
}

/// What parsing a specifier yields: nothing before the first separator (or
/// an empty specifier) is the catch-all; a specifier without separators is a
/// bare language, lower-cased; otherwise the text before the first separator
/// is the language and the text between the first and second separators is
/// the script, upper-cased.  Anything past the second separator is ignored.
pub open spec fn spec_parse(s: Seq<char>) -> LangShape {
    let i = spec_sep_index(s);
    if i == 0 {
        LangShape::Catchall
    } else if i == s.len() {
        LangShape::LanguageOnly(spec_lower(s))
    } else {
        let rest = s.subrange(i + 1, s.len() as int);
        let j = spec_sep_index(rest);
        LangShape::LanguageScript(
            spec_lower(s.subrange(0, i)),
            spec_upper(s.subrange(i + 1, i + 1 + j)),
        )
    }
}

/// Parses one language specifier, normalising the case of its tags.
pub fn parse(specifier: &str) -> (r: Language)
    ensures
        r@ == spec_parse(specifier@),
{
    let ghost sv = specifier@;
    let n = specifier.unicode_len();
    let i = find_separator(specifier, 0);
    proof {
        assert(sv.subrange(0, sv.len() as int) =~= sv);
    }
    if i == 0 {
        Language::Catchall
    } else if i == n {
        proof {
            assert(sv.subrange(0, n as int) =~= sv);
        }
        Language::LanguageOnly(lower_segment(specifier, 0, n))
    } else {
        let j = find_separator(specifier, i + 1);
        let lang = lower_segment(specifier, 0, i);
        let script = upper_segment(specifier, i + 1, j);
        proof {
            let rest = sv.subrange(i + 1, sv.len() as int);
            assert forall|k: int| 0 <= k < j - (i + 1) implies !spec_is_sep(rest[k]) by {
                assert(rest[k] == sv[i + 1 + k]);
            }
            if j < sv.len() {
                assert(rest[j - (i + 1)] == sv[j as int]);
            }
            lemma_sep_index_at(rest, j - (i + 1));
            assert(sv.subrange(i + 1, i + 1 + (j - (i + 1))) =~= sv.subrange(i + 1, j as int));
        }
        Language::LanguageScript(lang, script)
    }
}

/// The views of a sequence of languages.
pub open spec fn views_of(ls: Seq<Language>) -> Seq<LangShape> {
    ls.map_values(|l: Language| l@)
}

/// The strongest match level any available language reaches against the
/// request `req`.
pub open spec fn spec_best_rank(req: LangShape, avail: Seq<LangShape>) -> int
    decreases avail.len(),
{
    if avail.len() == 0 {
        0
    } else {
        let earlier = spec_best_rank(req, avail.drop_last());
        let last = spec_rank(spec_match_level(req, avail.last()));
        if last > earlier {
            last
        } else {
            earlier
        }
    }
}

/// The position of the first available language reaching the strongest
/// match level against `req` (meaningful when that level is positive).
pub open spec fn spec_first_best_index(req: LangShape, avail: Seq<LangShape>) -> int
    decreases avail.len(),
{
    if avail.len() == 0 {
        0
    } else {
        let earlier = spec_best_rank(req, avail.drop_last());
        let last = spec_rank(spec_match_level(req, avail.last()));
        if last > earlier {
            avail.len() - 1
        } else {
            spec_first_best_index(req, avail.drop_last())
        }
    }
}

/// The language chosen for an ordered preference list: for the first
/// preference that any available language matches, the first available
/// language with the strongest match; with no available languages the
/// catch-all, and with no matching preference the first available language.
pub open spec fn spec_best_language(avail: Seq<LangShape>, wanted: Seq<LangShape>) -> LangShape
    decreases wanted.len(),
{
    if avail.len() == 0 {
        LangShape::Catchall
    } else if wanted.len() == 0 {
        avail[0]
    } else if spec_best_rank(wanted[0], avail) > 0 {
        avail[spec_first_best_index(wanted[0], avail)]
    } else {
        spec_best_language(avail, wanted.drop_first())
    }
}

/// Preferences that match nothing do not influence the choice.
proof fn lemma_best_language_skip(avail: Seq<LangShape>, wanted: Seq<LangShape>, s: int)
    requires
        0 <= s <= wanted.len(),
        forall|j: int| 0 <= j < s ==> spec_best_rank(wanted[j], avail) == 0,
    ensures
        spec_best_language(avail, wanted) == spec_best_language(
            avail,
            wanted.subrange(s, wanted.len() as int),
        ),
    decreases s,
{
    if avail.len() == 0 {
    } else if s == 0 {
        assert(wanted.subrange(0, wanted.len() as int) =~= wanted);
    } else {
        lemma_best_language_skip(avail, wanted, s - 1);
        let tail = wanted.subrange(s - 1, wanted.len() as int);
        assert(tail[0] == wanted[s - 1]);
        assert(tail.drop_first() =~= wanted.subrange(s, wanted.len() as int));
    }
}

/// Picks the available language the user prefers most: user preferences are
/// tried in order, and the first one that matches anything selects the
/// first available language with the strongest match against it.
pub fn find_best_language(available: &[Language], wanted_by_user: &[Language]) -> (r: Language)
    ensures
        r@ == spec_best_language(views_of(available@), views_of(wanted_by_user@)),
{
    let ghost av = views_of(available@);
    let ghost wv = views_of(wanted_by_user@);
    let best: Language = if available.len() == 0 {
        Language::Catchall
    } else {
        available[0].clone()
    };
    let mut s: usize = 0;
    while s < wanted_by_user.len()
        invariant
            s <= wanted_by_user.len(),
            av == views_of(available@),
            wv == views_of(wanted_by_user@),
            av.len() == available@.len(),
            wv.len() == wanted_by_user@.len(),
            best@ == (if av.len() == 0 {
                LangShape::Catchall
            } else {
                av[0]
            }),
            forall|j: int| 0 <= j < s ==> spec_best_rank(wv[j], av) == 0,
        decreases wanted_by_user.len() - s,
    {
        let mut level: u8 = 0;
        let mut index: usize = 0;
        let mut a: usize = 0;
        while a < available.len()
            invariant
                a <= available.len(),
                av == views_of(available@),
                av.len() == available@.len(),
                s < wanted_by_user.len(),
                wv == views_of(wanted_by_user@),
                wv.len() == wanted_by_user@.len(),
                level == spec_best_rank(wv[s as int], av.subrange(0, a as int)),
                level > 0 ==> index == spec_first_best_index(wv[s as int], av.subrange(0, a as int)),
                index < available@.len() || index == 0,
            decreases available.len() - a,
        {
            let found = matches(&wanted_by_user[s], &available[a]).rank();
            proof {
                assert(av.subrange(0, a + 1).drop_last() =~= av.subrange(0, a as int));
                assert(av.subrange(0, a + 1).last() == av[a as int]);
            }
            if found > level {
                level = found;
                index = a;
            }
            a = a + 1;
        }
        proof {
            assert(av.subrange(0, available@.len() as int) =~= av);
        }
        if level > 0 {
            proof {
                lemma_best_language_skip(av, wv, s as int);
                let tail = wv.subrange(s as int, wv.len() as int);
                assert(tail[0] == wv[s as int]);
            }
            return available[index].clone();
        }
        s = s + 1;
    }
    proof {
        lemma_best_language_skip(av, wv, wv.len() as int);
    }
    best
}

} // verus!
