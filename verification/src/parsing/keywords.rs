//! The reserved words.

use crate::parsing::tokens::TokenType;
use vstd::hash_map::StringHashMap;
use vstd::prelude::*;

verus! {

/// The reserved words and the category of each.
pub open spec fn keyword_table() -> Map<Seq<char>, TokenType> {
    Map::<Seq<char>, TokenType>::empty().insert("and"@, TokenType::AND).insert(
        "class"@,
        TokenType::CLASS,
    ).insert("else"@, TokenType::ELSE).insert("false"@, TokenType::FALSE).insert(
        "for"@,
        TokenType::FOR,
    ).insert("fun"@, TokenType::DEF).insert("if"@, TokenType::IF).insert(
        "nil"@,
        TokenType::NIL,
    ).insert("or"@, TokenType::OR).insert("print"@, TokenType::PRINT).insert(
        "return"@,
        TokenType::RETURN,
    ).insert("super"@, TokenType::SUPER).insert("this"@, TokenType::THIS).insert(
        "true"@,
        TokenType::TRUE,
    ).insert("var"@, TokenType::VAR).insert("while"@, TokenType::WHILE)
}

/// The category of a word: that of the reserved word it spells, or
/// `IDENTIFIER`.
pub open spec fn word_kind(word: Seq<char>) -> TokenType {
    if keyword_table().contains_key(word) {
        keyword_table()[word]
    } else {
        TokenType::IDENTIFIER
    }
}

/// The table of reserved words.
pub fn keywords_map() -> (keywords: StringHashMap<TokenType>)
    ensures
        keywords@ == keyword_table(),
{
    let mut keywords = StringHashMap::new();
    keywords.insert("and".to_owned(), TokenType::AND);
    keywords.insert("class".to_owned(), TokenType::CLASS);
    keywords.insert("else".to_owned(), TokenType::ELSE);
    keywords.insert("false".to_owned(), TokenType::FALSE);
    keywords.insert("for".to_owned(), TokenType::FOR);
    keywords.insert("fun".to_owned(), TokenType::DEF);
    keywords.insert("if".to_owned(), TokenType::IF);
    keywords.insert("nil".to_owned(), TokenType::NIL);
    keywords.insert("or".to_owned(), TokenType::OR);
    keywords.insert("print".to_owned(), TokenType::PRINT);
    keywords.insert("return".to_owned(), TokenType::RETURN);
    keywords.insert("super".to_owned(), TokenType::SUPER);
    keywords.insert("this".to_owned(), TokenType::THIS);
    keywords.insert("true".to_owned(), TokenType::TRUE);
    keywords.insert("var".to_owned(), TokenType::VAR);
    keywords.insert("while".to_owned(), TokenType::WHILE);
    keywords
}

} // verus!
