//! Tokenizer and recursive-descent parser for the one supported query
//! shape, `SELECT COUNT([DISTINCT] column) FROM table [;]`.
//!
//! The tokenizer splits on whitespace, makes `(` and `)` stand alone, and
//! starts a fresh token at every `;`.  The parser consumes the token list
//! left to right; keywords are matched without regard to ASCII case, and
//! the exact wording of every error is part of the contract.

use vstd::prelude::*;

verus! {

use crate::plan::{Aggregation, AggregateExpression, Column, SelectStatement};
use vstd::string::{StrSliceExecFns, StringExecFns};

/// Whitespace that separates tokens.
pub open spec fn spec_is_space(c: char) -> bool {
    c == ' ' || c == '\t' || c == '\n' || c == '\r'
}

/// Parentheses always stand alone as tokens.
pub open spec fn spec_is_paren(c: char) -> bool {
    c == '(' || c == ')'
}

/// Characters that end the token being read: whitespace and parentheses
/// end it outright, and a `;` starts a fresh token.
pub open spec fn spec_is_break(c: char) -> bool {
    spec_is_space(c) || spec_is_paren(c) || c == ';'
}

/// How many leading characters of `s` continue a token already begun:
/// the length of the longest prefix free of breaking characters.
pub open spec fn spec_run_len(s: Seq<char>) -> nat
    decreases s.len(),
{
    if s.len() == 0 || spec_is_break(s[0]) {
        0
    } else {
        1 + spec_run_len(s.skip(1))
    }
}

/// The token list of an input: whitespace is dropped, a parenthesis is a
/// token of its own, and any other character starts a token that runs
/// until the next breaking character.
pub open spec fn spec_tokenize(s: Seq<char>) -> Seq<Seq<char>>
    decreases s.len(),
{
    if s.len() == 0 {
        Seq::empty()
    } else if spec_is_space(s[0]) {
        spec_tokenize(s.skip(1))
    } else if spec_is_paren(s[0]) {
        seq![seq![s[0]]] + spec_tokenize(s.skip(1))
    } else {
        let n = 1 + spec_run_len(s.skip(1));
        if n <= s.len() {
            seq![s.take(n as int)] + spec_tokenize(s.skip(n as int))
        } else {
            seq![s]
        }
    }
}

/// A token run never outruns the text.
proof fn lemma_run_len_le(s: Seq<char>)
    ensures
        spec_run_len(s) <= s.len(),
    decreases s.len(),
{
    if s.len() != 0 && !spec_is_break(s[0]) {
        lemma_run_len_le(s.skip(1));
    }
}

/// A prefix of non-breaking characters, ended by the text's end or by a
/// breaking character, is exactly the token run.
proof fn lemma_run_len_is(s: Seq<char>, k: int)
    requires
        0 <= k <= s.len(),
        forall|j: int| 0 <= j < k ==> !spec_is_break(#[trigger] s[j]),
        k == s.len() || spec_is_break(s[k]),
    ensures
        spec_run_len(s) == k,
    decreases s.len(),
{
    if k != 0 {
        assert(!spec_is_break(s[0]));
        assert forall|j: int| 0 <= j < k - 1 implies !spec_is_break(#[trigger] s.skip(1)[j]) by {
            assert(s.skip(1)[j] == s[j + 1]);
        }
        if k - 1 < s.skip(1).len() {
            assert(s.skip(1)[k - 1] == s[k]);
        }
        lemma_run_len_is(s.skip(1), k - 1);
    }
}

/// Whether `c` is whitespace that separates tokens.
fn is_space(c: char) -> (r: bool)
    ensures
        r == spec_is_space(c),
{
    c == ' ' || c == '\t' || c == '\n' || c == '\r'
}

/// Whether `c` ends the token being read.
fn is_break(c: char) -> (r: bool)
    ensures
        r == spec_is_break(c),
{
    is_space(c) || c == '(' || c == ')' || c == ';'
}

pub struct Parser {
    tokens: Vec<String>,
    position: usize,
}

impl Parser {
    /// The token list, as character sequences.
    pub closed spec fn spec_tokens(self) -> Seq<Seq<char>> {
        self.tokens.deep_view()
    }

    /// The next token to be consumed.
    pub closed spec fn spec_position(self) -> int {
        self.position as int
    }

    /// The cursor never passes the end of the token list.
    pub open spec fn wf(self) -> bool {
        0 <= self.spec_position() <= self.spec_tokens().len()
    }

    /// Tokenizes the input and places the cursor at the first token.
    pub fn new(sql: &str) -> (r: Parser)
        ensures
            r.wf(),
            r.spec_position() == 0,
            r.spec_tokens() == spec_tokenize(sql@),
    {
        let n = sql.unicode_len();
        let mut tokens: Vec<String> = Vec::new();
        let mut i: usize = 0;
        proof {
            assert(sql@.skip(0) =~= sql@);
            assert(tokens.deep_view() =~= Seq::<Seq<char>>::empty());
            assert(tokens.deep_view() + spec_tokenize(sql@) =~= spec_tokenize(sql@));
        }
        while i < n
            invariant
                i <= n,
                n == sql@.len(),
                tokens.deep_view() + spec_tokenize(sql@.skip(i as int)) == spec_tokenize(sql@),
            decreases n - i,
        {
            let ghost dv = tokens.deep_view();
            let ghost rest = sql@.skip(i as int);
            let c = sql.get_char(i);
            assert(rest[0] == c);
            if is_space(c) {
                proof {
                    assert(rest.skip(1) =~= sql@.skip(i as int + 1));
                    assert(spec_tokenize(rest) == spec_tokenize(sql@.skip(i as int + 1)));
                }
                i = i + 1;
            } else if c == '(' || c == ')' {
                let tok = String::from_str(sql.substring_char(i, i + 1));
                proof {
                    assert(tok@ =~= seq![sql@[i as int]]);
                    assert(rest.skip(1) =~= sql@.skip(i as int + 1));
                }
                tokens.push(tok);
                proof {
                    assert(spec_tokenize(rest) == seq![seq![c]] + spec_tokenize(
                        sql@.skip(i as int + 1),
                    ));
                    assert(tokens.deep_view() =~= dv.push(tok@));
                    assert(dv.push(tok@) + spec_tokenize(sql@.skip(i as int + 1)) =~= dv + (seq![
                        seq![c],
                    ] + spec_tokenize(sql@.skip(i as int + 1))));
                }
                i = i + 1;
            } else {
                let start = i;
                i = i + 1;
                while i < n && !is_break(sql.get_char(i))
                    invariant
                        start < i <= n,
                        n == sql@.len(),
                        forall|j: int|
                            (start as int) < j && j < (i as int) ==> !spec_is_break(
                                #[trigger] sql@[j],
                            ),
                    decreases n - i,
                {
                    i = i + 1;
                }
                proof {
                    let run = sql@.skip(start as int + 1);
                    assert forall|j: int| 0 <= j < i - start - 1 implies !spec_is_break(
                        #[trigger] run[j],
                    ) by {
                        assert(run[j] == sql@[start as int + 1 + j]);
                    }
                    if i < n {
                        assert(run[i - start - 1] == sql@[i as int]);
                    }
                    lemma_run_len_is(run, i - start - 1);
                    lemma_run_len_le(run);
                    assert(rest.skip(1) =~= run);
                }
                let tok = String::from_str(sql.substring_char(start, i));
                proof {
                    let m = (i - start) as int;
                    assert(tok@ =~= rest.take(m));
                    assert(rest.skip(m) =~= sql@.skip(i as int));
                }
                tokens.push(tok);
                proof {
                    assert(spec_tokenize(rest) == seq![tok@] + spec_tokenize(sql@.skip(i as int)));
                    assert(tokens.deep_view() =~= dv.push(tok@));
                    assert(dv.push(tok@) + spec_tokenize(sql@.skip(i as int)) =~= dv + (seq![tok@]
                        + spec_tokenize(sql@.skip(i as int))));
                }
            }
        }
        proof {
            assert(sql@.skip(n as int) =~= Seq::<char>::empty());
            assert(tokens.deep_view() + spec_tokenize(sql@.skip(n as int)) =~= tokens.deep_view());
        }
        Parser { tokens, position: 0 }
    }
}

/// `c` with an ASCII capital letter folded to its small form; any other
/// character is kept.
pub open spec fn spec_lower_char(c: char) -> char {
    if 'A' <= c && c <= 'Z' {
        (((c as u8) + 32) as char)
    } else {
        c
    }
}

/// `s` folded character by character.
pub open spec fn spec_lower(s: Seq<char>) -> Seq<char> {
    Seq::new(s.len(), |i: int| spec_lower_char(s[i]))
}

/// The message reported when a token does not match the expected one.
pub open spec fn spec_expected_found_msg(expected: Seq<char>, found: Seq<char>) -> Seq<char> {
    "Expected "@ + expected + ", found "@ + found
}

/// The message reported when the input ends where a token was expected.
pub open spec fn spec_expected_eoi_msg(expected: Seq<char>) -> Seq<char> {
    "Expected "@ + expected + ", found end of input"@
}

/// `c` with an ASCII capital letter folded to its small form.
fn lower_char(c: char) -> (r: char)
    ensures
        r == spec_lower_char(c),
{
    if 'A' <= c && c <= 'Z' {
        (((c as u8) + 32) as char)
    } else {
        c
    }
}

/// Whether the token and `kw` agree once both are folded to small ASCII
/// letters.
fn token_eq_lower(t: &str, kw: &str) -> (r: bool)
    ensures
        r == (spec_lower(t@) == spec_lower(kw@)),
{
    let n = t.unicode_len();
    if n != kw.unicode_len() {
        proof {
            assert(spec_lower(t@).len() != spec_lower(kw@).len());
        }
        return false;
    }
    let mut i: usize = 0;
    while i < n
        invariant
            i <= n,
            n == t@.len(),
            n == kw@.len(),
            forall|j: int| 0 <= j < i ==> spec_lower_char(t@[j]) == spec_lower_char(kw@[j]),
        decreases n - i,
    {
        let a = lower_char(t.get_char(i));
        let b = lower_char(kw.get_char(i));
        if a != b {
            proof {
                assert(spec_lower(t@)[i as int] != spec_lower(kw@)[i as int]);
            }
            return false;
        }
        i = i + 1;
    }
    proof {
        assert(spec_lower(t@) =~= spec_lower(kw@));
    }
    true
}

/// Whether the token is exactly `s`.
fn token_is(t: &str, s: &str) -> (r: bool)
    ensures
        r == (t@ == s@),
{
    let n = t.unicode_len();
    if n != s.unicode_len() {
        return false;
    }
    let mut i: usize = 0;
    while i < n
        invariant
            i <= n,
            n == t@.len(),
            n == s@.len(),
            forall|j: int| 0 <= j < i ==> t@[j] == s@[j],
        decreases n - i,
    {
        if t.get_char(i) != s.get_char(i) {
            return false;
        }
        i = i + 1;
    }
    proof {
        assert(t@ =~= s@);
    }
    true
}

/// The statement the parser extracts, in specification terms: the column
/// and table names as character sequences, and whether duplicates are
/// collapsed.
pub struct SpecSelect {
    pub distinct: bool,
    pub column: Seq<char>,
    pub table: Seq<char>,
}

/// What `parse` does from position `pos` of a token list: the parsed
/// statement or the exact error, together with the cursor's final
/// position.  A keyword check consumes its token even when it fails;
/// after the table name one trailing `;` token is consumed; anything
/// after that is left unread.
pub open spec fn spec_parse(toks: Seq<Seq<char>>, pos: int) -> (Result<SpecSelect, Seq<char>>, int) {
    if pos >= toks.len() {
        (Err(spec_expected_eoi_msg("select"@)), pos)
    } else if spec_lower(toks[pos]) != spec_lower("select"@) {
        (Err(spec_expected_found_msg("select"@, toks[pos])), pos + 1)
    } else if pos + 1 >= toks.len() {
        (Err(spec_expected_eoi_msg("count"@)), pos + 1)
    } else if spec_lower(toks[pos + 1]) != spec_lower("count"@) {
        (Err(spec_expected_found_msg("count"@, toks[pos + 1])), pos + 2)
    } else if pos + 2 >= toks.len() {
        (Err(spec_expected_eoi_msg("("@)), pos + 2)
    } else if spec_lower(toks[pos + 2]) != spec_lower("("@) {
        (Err(spec_expected_found_msg("("@, toks[pos + 2])), pos + 3)
    } else {
        let d = pos + 3 < toks.len() && spec_lower(toks[pos + 3]) == spec_lower("distinct"@);
        let q = if d {
            pos + 4
        } else {
            pos + 3
        };
        if q >= toks.len() {
            (Err("Expected column name"@), q)
        } else {
            let column = toks[q];
            if q + 1 >= toks.len() {
                (Err(spec_expected_eoi_msg(")"@)), q + 1)
            } else if spec_lower(toks[q + 1]) != spec_lower(")"@) {
                (Err(spec_expected_found_msg(")"@, toks[q + 1])), q + 2)
            } else if q + 2 >= toks.len() {
                (Err(spec_expected_eoi_msg("from"@)), q + 2)
            } else if spec_lower(toks[q + 2]) != spec_lower("from"@) {
                (Err(spec_expected_found_msg("from"@, toks[q + 2])), q + 3)
            } else if q + 3 >= toks.len() {
                (Err("Expected table name"@), q + 3)
            } else {
                let table = toks[q + 3];
                let after = if q + 4 < toks.len() && toks[q + 4] == ";"@ {
                    q + 5
                } else {
                    q + 4
                };
                (Ok(SpecSelect { distinct: d, column, table }), after)
            }
        }
    }
}

impl Parser {
    /// The token under the cursor, if any; the cursor stays put.
    fn peek(&self) -> (r: Option<&String>)
        ensures
            match r {
                Some(t) => self.spec_position() < self.spec_tokens().len() && t@
                    == self.spec_tokens()[self.spec_position()],
                None => self.spec_position() >= self.spec_tokens().len(),
            },
    {
        if self.position < self.tokens.len() {
            Some(&self.tokens[self.position])
        } else {
            None
        }
    }

    /// The token under the cursor, moving past it; `None` at the end of
    /// the input, where the cursor stays put.
    fn consume(&mut self) -> (r: Option<String>)
        requires
            old(self).wf(),
        ensures
            final(self).wf(),
            final(self).spec_tokens() == old(self).spec_tokens(),
            ({
                let toks = old(self).spec_tokens();
                let pos = old(self).spec_position();
                match r {
                    Some(t) => pos < toks.len() && t@ == toks[pos] && final(self).spec_position()
                        == pos + 1,
                    None => pos == toks.len() && final(self).spec_position() == pos,
                }
            }),
    {
        if self.position < self.tokens.len() {
            let token = self.tokens[self.position].clone();
            self.position = self.position + 1;
            Some(token)
        } else {
            None
        }
    }

    /// Consumes one token and demands that it match `expected` with ASCII
    /// case folded; the error says what was expected and what stood
    /// there, or that the input ended.
    fn expect(&mut self, expected: &str) -> (r: Result<(), String>)
        requires
            old(self).wf(),
        ensures
            final(self).wf(),
            final(self).spec_tokens() == old(self).spec_tokens(),
            ({
                let toks = old(self).spec_tokens();
                let pos = old(self).spec_position();
                match r {
                    Ok(u) => pos < toks.len() && spec_lower(toks[pos]) == spec_lower(expected@)
                        && final(self).spec_position() == pos + 1,
                    Err(e) => (pos < toks.len() && spec_lower(toks[pos]) != spec_lower(expected@)
                        && final(self).spec_position() == pos + 1 && e@ == spec_expected_found_msg(
                        expected@,
                        toks[pos],
                    )) || (pos == toks.len() && final(self).spec_position() == pos && e@
                        == spec_expected_eoi_msg(expected@)),
                }
            }),
    {
        match self.consume() {
            Some(token) => {
                if token_eq_lower(token.as_str(), expected) {
                    Ok(())
                } else {
                    let mut msg = String::from_str("Expected ");
                    msg.append(expected);
                    msg.append(", found ");
                    msg.append(token.as_str());
                    proof {
                        assert(msg@ =~= spec_expected_found_msg(expected@, token@));
                    }
                    Err(msg)
                }
            },
            None => {
                let mut msg = String::from_str("Expected ");
                msg.append(expected);
                msg.append(", found end of input");
                proof {
                    assert(msg@ =~= spec_expected_eoi_msg(expected@));
                }
                Err(msg)
            },
        }
    }

    /// Parses `SELECT COUNT([DISTINCT] column) FROM table [;]` from the
    /// cursor on: the statement built from the column and table tokens,
    /// or the first deviation from that shape as the exact error message.
    /// Tokens after the statement are left unread.
    pub fn parse(&mut self) -> (r: Result<SelectStatement, String>)
        requires
            old(self).wf(),
        ensures
            final(self).wf(),
            final(self).spec_tokens() == old(self).spec_tokens(),
            ({
                let outcome = spec_parse(old(self).spec_tokens(), old(self).spec_position());
                &&& final(self).spec_position() == outcome.1
                &&& match r {
                    Ok(stmt) => outcome.0 is Ok && stmt.projection.function == Aggregation::Count
                        && stmt.projection.column.name@ == outcome.0->Ok_0.column
                        && stmt.projection.column.distinct == outcome.0->Ok_0.distinct
                        && stmt.table@ == outcome.0->Ok_0.table,
                    Err(e) => outcome.0 is Err && e@ == outcome.0->Err_0,
                }
            }),
    {
        match self.expect("select") {
            Err(e) => {
                return Err(e);
            },
            Ok(u) => {},
        }
        match self.expect("count") {
            Err(e) => {
                return Err(e);
            },
            Ok(u) => {},
        }
        match self.expect("(") {
            Err(e) => {
                return Err(e);
            },
            Ok(u) => {},
        }
        let is_distinct = match self.peek() {
            Some(token) => token_eq_lower(token.as_str(), "distinct"),
            None => false,
        };
        if is_distinct {
            self.consume();
        }
        let column_name = match self.consume() {
            Some(t) => t,
            None => {
                return Err(String::from_str("Expected column name"));
            },
        };
        match self.expect(")") {
            Err(e) => {
                return Err(e);
            },
            Ok(u) => {},
        }
        match self.expect("from") {
            Err(e) => {
                return Err(e);
            },
            Ok(u) => {},
        }
        let table_name = match self.consume() {
            Some(t) => t,
            None => {
                return Err(String::from_str("Expected table name"));
            },
        };
        let ends_statement = match self.peek() {
            Some(token) => token_is(token.as_str(), ";"),
            None => false,
        };
        if ends_statement {
            self.consume();
        }
        Ok(
            SelectStatement {
                projection: AggregateExpression {
                    function: Aggregation::Count,
                    column: Column { name: column_name, distinct: is_distinct },
                },
                table: table_name,
            },
        )
    }
}

} // verus!
