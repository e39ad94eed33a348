//! The reserved words.

use vstd::prelude::*;
use crate::text::uppercase;

verus! {

/// A reserved word. `Int4` stands for both spellings `INT` and `INTEGER`.
#[derive(Debug, Clone, Copy, PartialEq, Eq)]
pub enum Keyword {
    Create,
    Table,
    True,
    False,
    Primary,
    Key,
    Int4,
}

/// The keyword table: the keyword spelled by an uppercase word, if any.
pub open spec fn keyword_of(upper: Seq<char>) -> Option<Keyword> {
    if upper == "CREATE"@ {
        Some(Keyword::Create)
    } else if upper == "TABLE"@ {
        Some(Keyword::Table)
    } else if upper == "TRUE"@ {
        Some(Keyword::True)
    } else if upper == "FALSE"@ {
        Some(Keyword::False)
    } else if upper == "INT"@ || upper == "INTEGER"@ {
        Some(Keyword::Int4)
    } else if upper == "PRIMARY"@ {
        Some(Keyword::Primary)
    } else if upper == "KEY"@ {
        Some(Keyword::Key)
    } else {
        None
    }
}

impl Keyword {
    /// Whether `upper` is a spelling of this keyword.
    pub open spec fn is_spelled(self, upper: Seq<char>) -> bool {
        match self {
            Keyword::Create => upper == "CREATE"@,
            Keyword::Table => upper == "TABLE"@,
            Keyword::True => upper == "TRUE"@,
            Keyword::False => upper == "FALSE"@,
            Keyword::Primary => upper == "PRIMARY"@,
            Keyword::Key => upper == "KEY"@,
            Keyword::Int4 => upper == "INT"@ || upper == "INTEGER"@,
        }
    }

    /// Looks a word up in the keyword table, ignoring case: the word is
    /// uppercased first, so `create`, `Create` and `CREATE` are one keyword.
    pub fn from_str(ident: &str) -> (r: Option<Keyword>)
        ensures
            r == keyword_of(uppercase(ident@)),
    {
        let upper = ident.to_uppercase();
        Keyword::from_uppercase(upper.as_str())
    }

    /// Looks an already uppercased word up in the keyword table.
    pub fn from_uppercase(upper: &str) -> (r: Option<Keyword>)
        ensures
            r == keyword_of(upper@),
    {
        if upper.eq("CREATE") {
            Some(Keyword::Create)
        } else if upper.eq("TABLE") {
            Some(Keyword::Table)
        } else if upper.eq("TRUE") {
            Some(Keyword::True)
        } else if upper.eq("FALSE") {
            Some(Keyword::False)
        } else if upper.eq("INT") || upper.eq("INTEGER") {
            Some(Keyword::Int4)
        } else if upper.eq("PRIMARY") {
            Some(Keyword::Primary)
        } else if upper.eq("KEY") {
            Some(Keyword::Key)
        } else {
            None
        }
    }
}

/// The keyword table finds a keyword exactly for its spellings: no two
/// keywords share one.
pub proof fn lemma_keyword_of_its_spellings(upper: Seq<char>, keyword: Keyword)
    ensures
        keyword_of(upper) == Some(keyword) <==> keyword.is_spelled(upper),
{
    reveal_strlit("CREATE");
    reveal_strlit("TABLE");
    reveal_strlit("TRUE");
    reveal_strlit("FALSE");
    reveal_strlit("INT");
    reveal_strlit("INTEGER");
    reveal_strlit("PRIMARY");
    reveal_strlit("KEY");
    assert("CREATE"@.len() == 6 && "TABLE"@.len() == 5 && "TRUE"@.len() == 4);
    assert("FALSE"@.len() == 5 && "INT"@.len() == 3 && "INTEGER"@.len() == 7);
    assert("PRIMARY"@.len() == 7 && "KEY"@.len() == 3);
    // Spellings of the same length differ in their first character.
    assert("TABLE"@[0] != "FALSE"@[0]);
    assert("INT"@[0] != "KEY"@[0]);
    assert("INTEGER"@[0] != "PRIMARY"@[0]);
}

} // verus!
