//! Letter cases: the eight naming conventions by which a declared name is
//! turned into a wire name.

use vstd::prelude::*;

use crate::error::ConfigError;
use crate::text::{
    ascii_lower, ascii_upper, char_is_lower, char_is_upper, is_ascii_lower, is_ascii_upper,
    lemma_ascii_case, to_lower, to_upper,
};

verus! {

/// A naming convention.
#[derive(Copy, Clone, Debug, PartialEq, Eq, Structural)]
pub enum Case {
    /// `lowercase`
    Lowercase,
    /// `UPPERCASE`
    Uppercase,
    /// `PascalCase`
    PascalCase,
    /// `camelCase`
    CamelCase,
    /// `snake_case`
    SnakeCase,
    /// `SCREAMING_SNAKE_CASE`
    ScreamingSnakeCase,
    /// `kebab-case`
    KebabCase,
    /// `SCREAMING-KEBAB-CASE`
    ScreamingKebabCase,
}

/// The case that a name stands for, if it is the name of a case.
pub open spec fn case_of_name(s: Seq<char>) -> Option<Case> {
    if s == "lowercase"@ {
        Some(Case::Lowercase)
    } else if s == "UPPERCASE"@ {
        Some(Case::Uppercase)
    } else if s == "PascalCase"@ {
        Some(Case::PascalCase)
    } else if s == "camelCase"@ {
        Some(Case::CamelCase)
    } else if s == "snake_case"@ {
        Some(Case::SnakeCase)
    } else if s == "SCREAMING_SNAKE_CASE"@ {
        Some(Case::ScreamingSnakeCase)
    } else if s == "kebab-case"@ {
        Some(Case::KebabCase)
    } else if s == "SCREAMING-KEBAB-CASE"@ {
        Some(Case::ScreamingKebabCase)
    } else {
        None
    }
}

/// A character that separates the words of a name.
pub open spec fn is_separator(c: char) -> bool {
    c == '_' || c == '-'
}

/// `c` in upper case if `upper`, else in lower case.
pub open spec fn fold_char(c: char, upper: bool) -> char {
    if upper {
        ascii_upper(c)
    } else {
        ascii_lower(c)
    }
}

/// Whether a new word starts at the last character of `s` without a
/// separator before it: an upper-case letter that follows a lower-case one.
pub open spec fn word_break_at_end(s: Seq<char>) -> bool {
    s.len() >= 2 && is_ascii_upper(s.last()) && is_ascii_lower(s[s.len() - 2])
}

/// `s` with every letter folded to one case and its words joined by `delim`:
/// each separator becomes `delim`, and `delim` is put in where a word starts
/// without a separator.
pub open spec fn delimited(s: Seq<char>, delim: char, upper: bool) -> Seq<char>
    decreases s.len(),
{
    if s.len() == 0 {
        Seq::<char>::empty()
    } else {
        let prefix = delimited(s.drop_last(), delim, upper);
        let c = s.last();
        if is_separator(c) {
            prefix.push(delim)
        } else if word_break_at_end(s) {
            prefix.push(delim).push(fold_char(c, upper))
        } else {
            prefix.push(fold_char(c, upper))
        }
    }
}

/// Whether the last character of `s` is the first of a word: it stands at
/// the start of `s` or behind a separator.
pub open spec fn word_start_at_end(s: Seq<char>) -> bool {
    s.len() == 1 || (s.len() >= 2 && is_separator(s[s.len() - 2]))
}

/// `s` without its separators, the first character of each word in upper
/// case.
pub open spec fn capitalized(s: Seq<char>) -> Seq<char>
    decreases s.len(),
{
    if s.len() == 0 {
        Seq::<char>::empty()
    } else {
        let prefix = capitalized(s.drop_last());
        let c = s.last();
        if is_separator(c) {
            prefix
        } else if word_start_at_end(s) {
            prefix.push(ascii_upper(c))
        } else {
            prefix.push(c)
        }
    }
}

/// `s` with its first character in lower case.
pub open spec fn lower_first(s: Seq<char>) -> Seq<char> {
    if s.len() == 0 {
        s
    } else {
        s.update(0, ascii_lower(s[0]))
    }
}

impl Case {
    /// The wire name that this case gives to a declared name.
    pub open spec fn spec_transform(self, s: Seq<char>) -> Seq<char> {
        match self {
            Case::Lowercase => s.map_values(|c: char| ascii_lower(c)),
            Case::Uppercase => s.map_values(|c: char| ascii_upper(c)),
            Case::PascalCase => capitalized(s),
            Case::CamelCase => lower_first(capitalized(s)),
            Case::SnakeCase => delimited(s, '_', false),
            Case::ScreamingSnakeCase => delimited(s, '_', true),
            Case::KebabCase => delimited(s, '-', false),
            Case::ScreamingKebabCase => delimited(s, '-', true),
        }
    }

    /// Reads the name of a case. Any other text is rejected.
    pub fn from_str(s: &str) -> (r: Result<Case, ConfigError>)
        ensures
            match case_of_name(s@) {
                Some(case) => r == Ok::<Case, ConfigError>(case),
                None => r == Err::<Case, ConfigError>(ConfigError::InvalidCase),
            },
    {
        if s.eq("lowercase") {
            Ok(Case::Lowercase)
        } else if s.eq("UPPERCASE") {
            Ok(Case::Uppercase)
        } else if s.eq("PascalCase") {
            Ok(Case::PascalCase)
        } else if s.eq("camelCase") {
            Ok(Case::CamelCase)
        } else if s.eq("snake_case") {
            Ok(Case::SnakeCase)
        } else if s.eq("SCREAMING_SNAKE_CASE") {
            Ok(Case::ScreamingSnakeCase)
        } else if s.eq("kebab-case") {
            Ok(Case::KebabCase)
        } else if s.eq("SCREAMING-KEBAB-CASE") {
            Ok(Case::ScreamingKebabCase)
        } else {
            Err(ConfigError::InvalidCase)
        }
    }

    /// Turns a declared name into its wire name under this case.
    pub fn transform(&self, name: &str) -> (wire: String)
        ensures
            wire@ == self.spec_transform(name@),
    {
        match self {
            Case::Lowercase => map_chars(name, false),
            Case::Uppercase => map_chars(name, true),
            Case::PascalCase => capitalize(name, false),
            Case::CamelCase => capitalize(name, true),
            Case::SnakeCase => delimit(name, '_', false),
            Case::ScreamingSnakeCase => delimit(name, '_', true),
            Case::KebabCase => delimit(name, '-', false),
            Case::ScreamingKebabCase => delimit(name, '-', true),
        }
    }
}

fn map_chars(name: &str, upper: bool) -> (out: String)
    ensures
        out@ == name@.map_values(|c: char| fold_char(c, upper)),
{
    let mut out = String::new();
    for c in it: name.chars()
        invariant
            it.seq() == name@,
            out@ == name@.take(it.index()).map_values(|c: char| fold_char(c, upper)),
    {
        let folded = if upper {
            to_upper(c)
        } else {
            to_lower(c)
        };
        out.push(folded);
        assert(name@.take(it.index() + 1).map_values(|c: char| fold_char(c, upper))
            == name@.take(it.index()).map_values(|c: char| fold_char(c, upper)).push(folded));
    }
    assert(name@.take(name@.len() as int) == name@);
    out
}

fn delimit(name: &str, delim: char, upper: bool) -> (out: String)
    ensures
        out@ == delimited(name@, delim, upper),
{
    let mut out = String::new();
    let mut after_lower = false;
    for c in it: name.chars()
        invariant
            it.seq() == name@,
            out@ == delimited(name@.take(it.index()), delim, upper),
            after_lower == (it.index() > 0 && is_ascii_lower(name@[it.index() - 1])),
    {
        let ghost before = name@.take(it.index());
        let ghost now = name@.take(it.index() + 1);
        assert(now.drop_last() == before);
        assert(now.last() == c);
        if c == '_' || c == '-' {
            out.push(delim);
        } else {
            if after_lower && char_is_upper(c) {
                out.push(delim);
            }
            let folded = if upper {
                to_upper(c)
            } else {
                to_lower(c)
            };
            out.push(folded);
        }
        after_lower = char_is_lower(c);
    }
    assert(name@.take(name@.len() as int) == name@);
    out
}

fn capitalize(name: &str, lower_head: bool) -> (out: String)
    ensures
        out@ == if lower_head {
            lower_first(capitalized(name@))
        } else {
            capitalized(name@)
        },
{
    let mut out = String::new();
    let mut word_start = true;
    for c in it: name.chars()
        invariant
            it.seq() == name@,
            out@ == if lower_head {
                lower_first(capitalized(name@.take(it.index())))
            } else {
                capitalized(name@.take(it.index()))
            },
            word_start == (it.index() == 0 || is_separator(name@[it.index() - 1])),
    {
        let ghost before = name@.take(it.index());
        let ghost now = name@.take(it.index() + 1);
        assert(now.drop_last() == before);
        assert(now.last() == c);
        if c == '_' || c == '-' {
            word_start = true;
        } else {
            let head = out.as_str().is_empty();
            proof {
                lemma_ascii_case(c);
                lemma_lower_first_push(capitalized(before), ascii_upper(c));
                lemma_lower_first_push(capitalized(before), c);
            }
            let shaped = if word_start {
                to_upper(c)
            } else {
                c
            };
            if lower_head && head {
                out.push(to_lower(shaped));
            } else {
                out.push(shaped);
            }
            word_start = false;
        }
    }
    assert(name@.take(name@.len() as int) == name@);
    out
}

/// Putting a character behind a text and lowering the head is lowering the
/// head and putting the character behind, unless the text was empty.
proof fn lemma_lower_first_push(s: Seq<char>, c: char)
    ensures
        s.len() == 0 ==> lower_first(s.push(c)) == Seq::<char>::empty().push(ascii_lower(c)),
        s.len() > 0 ==> lower_first(s.push(c)) == lower_first(s).push(c),
        lower_first(s).len() == s.len(),
{
    if s.len() == 0 {
        assert(lower_first(s.push(c)) =~= Seq::<char>::empty().push(ascii_lower(c)));
    } else {
        assert(lower_first(s.push(c)) =~= lower_first(s).push(c));
    }
}

/// Every character is `delim` or a character, no separator, that folding
/// leaves alone.
pub open spec fn is_delimited(t: Seq<char>, delim: char, upper: bool) -> bool {
    forall|i: int|
        0 <= i < t.len() ==> #[trigger] t[i] == delim || (!is_separator(t[i]) && fold_char(
            t[i],
            upper,
        ) == t[i])
}

proof fn lemma_delimited_shape(s: Seq<char>, delim: char, upper: bool)
    requires
        is_separator(delim),
    ensures
        is_delimited(delimited(s, delim, upper), delim, upper),
    decreases s.len(),
{
    if s.len() > 0 {
        lemma_delimited_shape(s.drop_last(), delim, upper);
        lemma_ascii_case(s.last());
    }
}

proof fn lemma_delimited_fixed(t: Seq<char>, delim: char, upper: bool)
    requires
        is_separator(delim),
        is_delimited(t, delim, upper),
    ensures
        delimited(t, delim, upper) == t,
    decreases t.len(),
{
    if t.len() == 0 {
        assert(delimited(t, delim, upper) =~= t);
    } else {
        let front = t.drop_last();
        assert forall|i: int| 0 <= i < front.len() implies #[trigger] front[i] == delim || (
        !is_separator(front[i]) && fold_char(front[i], upper) == front[i]) by {
            assert(front[i] == t[i]);
        }
        lemma_delimited_fixed(front, delim, upper);
        let c = t.last();
        assert(c == t[t.len() - 1]);
        lemma_ascii_case(c);
        if t.len() >= 2 {
            assert(t[t.len() - 2] == delim || !is_separator(t[t.len() - 2]));
            lemma_ascii_case(t[t.len() - 2]);
        }
        assert(front.push(c) =~= t);
    }
}

/// No character is a separator.
pub open spec fn has_no_separator(t: Seq<char>) -> bool {
    forall|i: int| 0 <= i < t.len() ==> !is_separator(#[trigger] t[i])
}

proof fn lemma_capitalized_shape(s: Seq<char>)
    ensures
        has_no_separator(capitalized(s)),
        capitalized(s).len() > 0 ==> ascii_upper(capitalized(s)[0]) == capitalized(s)[0],
    decreases s.len(),
{
    if s.len() > 0 {
        let front = s.drop_last();
        lemma_capitalized_shape(front);
        lemma_ascii_case(s.last());
        if capitalized(front).len() == 0 && front.len() > 0 {
            lemma_capitalized_empty(front);
            assert(is_separator(front[front.len() - 1]));
        }
    }
}

/// A text that capitalizes to nothing holds separators only.
proof fn lemma_capitalized_empty(s: Seq<char>)
    requires
        capitalized(s).len() == 0,
    ensures
        forall|i: int| 0 <= i < s.len() ==> is_separator(#[trigger] s[i]),
    decreases s.len(),
{
    if s.len() > 0 {
        lemma_capitalized_empty(s.drop_last());
        assert forall|i: int| 0 <= i < s.len() implies is_separator(#[trigger] s[i]) by {
            if i < s.len() - 1 {
                assert(s.drop_last()[i] == s[i]);
            }
        }
    }
}

proof fn lemma_capitalized_fixed(t: Seq<char>)
    requires
        has_no_separator(t),
    ensures
        capitalized(t) == if t.len() > 0 {
            t.update(0, ascii_upper(t[0]))
        } else {
            t
        },
    decreases t.len(),
{
    if t.len() == 0 {
        assert(capitalized(t) =~= t);
    } else {
        let front = t.drop_last();
        assert forall|i: int| 0 <= i < front.len() implies !is_separator(#[trigger] front[i]) by {
            assert(front[i] == t[i]);
        }
        lemma_capitalized_fixed(front);
        assert(!is_separator(t[t.len() - 1]));
        if t.len() >= 2 {
            assert(!is_separator(t[t.len() - 2]));
        }
        assert(capitalized(t) =~= t.update(0, ascii_upper(t[0])));
    }
}

/// A case applied to a name that it has produced leaves the name as it is.
pub proof fn lemma_transform_idempotent(case: Case, s: Seq<char>)
    ensures
        case.spec_transform(case.spec_transform(s)) == case.spec_transform(s),
{
    let once = case.spec_transform(s);
    match case {
        Case::Lowercase | Case::Uppercase => {
            assert forall|i: int| 0 <= i < once.len() implies #[trigger] case.spec_transform(
                once,
            )[i] == once[i] by {
                lemma_ascii_case(s[i]);
            }
            assert(case.spec_transform(once) =~= once);
        },
        Case::PascalCase => {
            lemma_capitalized_shape(s);
            lemma_capitalized_fixed(once);
            assert(case.spec_transform(once) =~= once);
        },
        Case::CamelCase => {
            let pascal = capitalized(s);
            lemma_capitalized_shape(s);
            assert forall|i: int| 0 <= i < once.len() implies !is_separator(#[trigger] once[i]) by {
                lemma_ascii_case(pascal[i]);
                assert(!is_separator(pascal[i]));
            }
            lemma_capitalized_fixed(once);
            if once.len() > 0 {
                lemma_ascii_case(pascal[0]);
            }
            assert(case.spec_transform(once) =~= once);
        },
        Case::SnakeCase => {
            lemma_delimited_shape(s, '_', false);
            lemma_delimited_fixed(once, '_', false);
        },
        Case::ScreamingSnakeCase => {
            lemma_delimited_shape(s, '_', true);
            lemma_delimited_fixed(once, '_', true);
        },
        Case::KebabCase => {
            lemma_delimited_shape(s, '-', false);
            lemma_delimited_fixed(once, '-', false);
        },
        Case::ScreamingKebabCase => {
            lemma_delimited_shape(s, '-', true);
            lemma_delimited_fixed(once, '-', true);
        },
    }
}

} // verus!
