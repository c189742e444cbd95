//! The kinds of SQL statement the search can tell apart.

use crate::text::chars_of;
use vstd::prelude::*;
use vstd::std_specs::convert::TryFromSpecImpl;

verus! {

/// The category of a SQL statement, decided by its leading keyword.
#[derive(Debug, Clone, Copy, PartialEq, Eq, Structural)]
pub enum StatementType {
    Select,
    Insert,
    Update,
    Delete,
    Merge,
}

/// The kind that a single selector character stands for, if any.
pub open spec fn kind_of_char(c: char) -> Option<StatementType> {
    if c == 's' {
        Some(StatementType::Select)
    } else if c == 'i' {
        Some(StatementType::Insert)
    } else if c == 'u' {
        Some(StatementType::Update)
    } else if c == 'd' {
        Some(StatementType::Delete)
    } else if c == 'm' {
        Some(StatementType::Merge)
    } else {
        None
    }
}

/// The lower-case keyword that opens a statement of the given kind.
pub open spec fn keyword_of(kind: StatementType) -> Seq<char> {
    match kind {
        StatementType::Select => seq!['s', 'e', 'l', 'e', 'c', 't'],
        StatementType::Insert => seq!['i', 'n', 's', 'e', 'r', 't'],
        StatementType::Update => seq!['u', 'p', 'd', 'a', 't', 'e'],
        StatementType::Delete => seq!['d', 'e', 'l', 'e', 't', 'e'],
        StatementType::Merge => seq!['m', 'e', 'r', 'g', 'e'],
    }
}

/// The kind whose keyword is exactly `word`, if any. The match is
/// case-sensitive: callers lower-case first.
pub open spec fn kind_of_keyword(word: Seq<char>) -> Option<StatementType> {
    if word == keyword_of(StatementType::Select) {
        Some(StatementType::Select)
    } else if word == keyword_of(StatementType::Insert) {
        Some(StatementType::Insert)
    } else if word == keyword_of(StatementType::Update) {
        Some(StatementType::Update)
    } else if word == keyword_of(StatementType::Delete) {
        Some(StatementType::Delete)
    } else if word == keyword_of(StatementType::Merge) {
        Some(StatementType::Merge)
    } else {
        None
    }
}

/// The canonical upper-case name of a kind.
pub open spec fn display_name(kind: StatementType) -> Seq<char> {
    match kind {
        StatementType::Select => seq!['S', 'E', 'L', 'E', 'C', 'T'],
        StatementType::Insert => seq!['I', 'N', 'S', 'E', 'R', 'T'],
        StatementType::Update => seq!['U', 'P', 'D', 'A', 'T', 'E'],
        StatementType::Delete => seq!['D', 'E', 'L', 'E', 'T', 'E'],
        StatementType::Merge => seq!['M', 'E', 'R', 'G', 'E'],
    }
}

/// `Ok` of the kind where there is one, `Err(())` where there is none.
pub open spec fn ok_or_unit(kind: Option<StatementType>) -> Result<StatementType, ()> {
    match kind {
        Some(k) => Ok(k),
        None => Err(()),
    }
}

impl StatementType {
    /// Resolves one selector character: `s`, `i`, `u`, `d` or `m`.
    pub fn from_char(c: char) -> (kind: Option<StatementType>)
        ensures
            kind == kind_of_char(c),
    {
        if c == 's' {
            Some(StatementType::Select)
        } else if c == 'i' {
            Some(StatementType::Insert)
        } else if c == 'u' {
            Some(StatementType::Update)
        } else if c == 'd' {
            Some(StatementType::Delete)
        } else if c == 'm' {
            Some(StatementType::Merge)
        } else {
            None
        }
    }

    /// Resolves a full lower-case keyword given as characters.
    pub fn from_keyword_chars(word: &[char]) -> (kind: Option<StatementType>)
        ensures
            kind == kind_of_keyword(word@),
    {
        let n: usize = word.len();
        if n == 6 {
            if word[0] == 's' && word[1] == 'e' && word[2] == 'l' && word[3] == 'e' && word[4]
                == 'c' && word[5] == 't' {
                assert(word@ =~= keyword_of(StatementType::Select));
                Some(StatementType::Select)
            } else if word[0] == 'i' && word[1] == 'n' && word[2] == 's' && word[3] == 'e'
                && word[4] == 'r' && word[5] == 't' {
                assert(word@ =~= keyword_of(StatementType::Insert));
                Some(StatementType::Insert)
            } else if word[0] == 'u' && word[1] == 'p' && word[2] == 'd' && word[3] == 'a'
                && word[4] == 't' && word[5] == 'e' {
                assert(word@ =~= keyword_of(StatementType::Update));
                Some(StatementType::Update)
            } else if word[0] == 'd' && word[1] == 'e' && word[2] == 'l' && word[3] == 'e'
                && word[4] == 't' && word[5] == 'e' {
                assert(word@ =~= keyword_of(StatementType::Delete));
                Some(StatementType::Delete)
            } else {
                None
            }
        } else if n == 5 {
            if word[0] == 'm' && word[1] == 'e' && word[2] == 'r' && word[3] == 'g' && word[4]
                == 'e' {
                assert(word@ =~= keyword_of(StatementType::Merge));
                Some(StatementType::Merge)
            } else {
                None
            }
        } else {
            None
        }
    }

    /// The canonical upper-case name, as text.
    pub fn to_string(&self) -> (name: String)
        ensures
            name@ == display_name(*self),
    {
        let mut name = String::new();
        match self {
            StatementType::Select => {
                name.push('S');
                name.push('E');
                name.push('L');
                name.push('E');
                name.push('C');
                name.push('T');
            },
            StatementType::Insert => {
                name.push('I');
                name.push('N');
                name.push('S');
                name.push('E');
                name.push('R');
                name.push('T');
            },
            StatementType::Update => {
                name.push('U');
                name.push('P');
                name.push('D');
                name.push('A');
                name.push('T');
                name.push('E');
            },
            StatementType::Delete => {
                name.push('D');
                name.push('E');
                name.push('L');
                name.push('E');
                name.push('T');
                name.push('E');
            },
            StatementType::Merge => {
                name.push('M');
                name.push('E');
                name.push('R');
                name.push('G');
                name.push('E');
            },
        }
        assert(name@ =~= display_name(*self));
        name
    }
}

impl TryFrom<char> for StatementType {
    type Error = ();

    fn try_from(c: char) -> (kind: Result<StatementType, ()>) {
        match StatementType::from_char(c) {
            Some(k) => Ok(k),
            None => Err(()),
        }
    }
}

impl TryFromSpecImpl<char> for StatementType {
    open spec fn obeys_try_from_spec() -> bool {
        true
    }

    open spec fn try_from_spec(c: char) -> Result<StatementType, ()> {
        ok_or_unit(kind_of_char(c))
    }
}

impl TryFrom<String> for StatementType {
    type Error = ();

    fn try_from(s: String) -> (kind: Result<StatementType, ()>) {
        let word = chars_of(s.as_str());
        match StatementType::from_keyword_chars(word.as_slice()) {
            Some(k) => Ok(k),
            None => Err(()),
        }
    }
}

impl TryFromSpecImpl<String> for StatementType {
    open spec fn obeys_try_from_spec() -> bool {
        true
    }

    open spec fn try_from_spec(s: String) -> Result<StatementType, ()> {
        ok_or_unit(kind_of_keyword(s@))
    }
}

} // verus!
