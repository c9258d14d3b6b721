//! Statement preparation: turning one line of input into a prepared
//! statement.
//!
//! A line whose leading keyword is `SELECT` (case-insensitive) prepares a
//! select. One whose leading keyword is `INSERT` is split on whitespace into
//! `INSERT <id> <username> <email>`: fewer than four tokens, an id that does
//! not parse as an unsigned 32-bit number, or an id of zero (the on-disk
//! live-row sentinel) is a syntax error; an over-long username or email is a
//! preparation error. Anything else is unrecognized.

use vstd::prelude::*;

use crate::row::RowAbs;
use crate::row::SimpleRow;
use crate::status::PreparedStatementResult;
use crate::status::StatementType;
use crate::EMAIL_SIZE;
use crate::USERNAME_SIZE;

verus! {

/// ASCII whitespace: space, tab, line feed, vertical tab, form feed,
/// carriage return.
pub open spec fn is_space(b: u8) -> bool {
    b == 32 || b == 9 || b == 10 || b == 11 || b == 12 || b == 13
}

/// ASCII upper-casing of one byte.
pub open spec fn to_upper(b: u8) -> u8 {
    if 97 <= b <= 122 {
        (b - 32) as u8
    } else {
        b
    }
}

/// The input starts with the given keyword, compared byte for byte after
/// ASCII upper-casing the input.
pub open spec fn upper_prefix_matches(s: Seq<u8>, kw: Seq<u8>) -> bool {
    s.len() >= kw.len() && forall|i: int| 0 <= i < kw.len() ==> to_upper(s[i]) == kw[i]
}

/// The bytes of `SELECT`.
pub open spec fn select_keyword() -> Seq<u8> {
    seq![83u8, 69u8, 76u8, 69u8, 67u8, 84u8]
}

/// The bytes of `INSERT`.
pub open spec fn insert_keyword() -> Seq<u8> {
    seq![73u8, 78u8, 83u8, 69u8, 82u8, 84u8]
}

/// The longest non-whitespace prefix of the input.
pub open spec fn leading_word(s: Seq<u8>) -> Seq<u8>
    decreases s.len(),
{
    if s.len() == 0 || is_space(s[0]) {
        Seq::empty()
    } else {
        seq![s[0]] + leading_word(s.skip(1))
    }
}

/// The whitespace-separated tokens of the input, in order.
pub open spec fn split_ws(s: Seq<u8>) -> Seq<Seq<u8>>
    decreases s.len(),
    via split_ws_decreases
{
    if s.len() == 0 {
        Seq::empty()
    } else if is_space(s[0]) {
        split_ws(s.skip(1))
    } else {
        seq![leading_word(s)] + split_ws(s.skip(leading_word(s).len() as int))
    }
}

/// The leading word is a prefix: never longer than the input.
proof fn lemma_leading_word_len(s: Seq<u8>)
    ensures
        leading_word(s).len() <= s.len(),
    decreases s.len(),
{
    if s.len() > 0 && !is_space(s[0]) {
        lemma_leading_word_len(s.skip(1));
    }
}

#[via_fn]
proof fn split_ws_decreases(s: Seq<u8>) {
    if s.len() > 0 && !is_space(s[0]) {
        assert(leading_word(s) == seq![s[0]] + leading_word(s.skip(1)));
        assert(leading_word(s).len() >= 1);
        lemma_leading_word_len(s);
    }
}

/// An ASCII decimal digit.
pub open spec fn is_digit(b: u8) -> bool {
    48 <= b <= 57
}

/// Every byte is an ASCII decimal digit.
pub open spec fn all_digits(s: Seq<u8>) -> bool {
    forall|i: int| 0 <= i < s.len() ==> is_digit(#[trigger] s[i])
}

/// The number a string of decimal digits denotes.
pub open spec fn digits_val(s: Seq<u8>) -> nat
    decreases s.len(),
{
    if s.len() == 0 {
        0
    } else {
        digits_val(s.drop_last()) * 10 + (s.last() - 48) as nat
    }
}

/// The digits of a numeral: an optional leading plus sign is dropped.
pub open spec fn numeral_digits(s: Seq<u8>) -> Seq<u8> {
    if s.len() > 0 && s[0] == 43 {
        s.skip(1)
    } else {
        s
    }
}

/// The token denotes an unsigned 32-bit number: at least one digit after an
/// optional plus sign, all digits, and a value in range.
pub open spec fn is_valid_u32(s: Seq<u8>) -> bool {
    let d = numeral_digits(s);
    d.len() >= 1 && all_digits(d) && digits_val(d) <= u32::MAX
}

/// The number a valid token denotes.
pub open spec fn parsed_u32(s: Seq<u8>) -> u32 {
    digits_val(numeral_digits(s)) as u32
}

/// The id an insert statement reads from its token: a token that does not
/// denote an unsigned 32-bit number counts as zero (and zero is rejected as
/// a syntax error).
pub open spec fn id_of(tok: Seq<u8>) -> u32 {
    if is_valid_u32(tok) {
        parsed_u32(tok)
    } else {
        0
    }
}

/// How a line of input is classified during preparation.
pub open spec fn prepare_result(input: Seq<u8>) -> PreparedStatementResult {
    if upper_prefix_matches(input, select_keyword()) {
        PreparedStatementResult::PreparedStatementSuccess
    } else if upper_prefix_matches(input, insert_keyword()) {
        let toks = split_ws(input);
        if toks.len() < 4 {
            PreparedStatementResult::PreparedStatementSyntaxError
        } else if id_of(toks[1]) == 0 {
            PreparedStatementResult::PreparedStatementSyntaxError
        } else if toks[2].len() > USERNAME_SIZE {
            PreparedStatementResult::PreparedStatementError
        } else if toks[3].len() > EMAIL_SIZE {
            PreparedStatementResult::PreparedStatementError
        } else {
            PreparedStatementResult::PreparedStatementSuccess
        }
    } else {
        PreparedStatementResult::PreparedStatementUnrecognized
    }
}

/// The row a successfully prepared insert carries: the parsed id, the second
/// token as username, the third as email.
pub open spec fn prepared_insert_row(input: Seq<u8>) -> RowAbs {
    RowAbs {
        id: id_of(split_ws(input)[1]),
        username: split_ws(input)[2],
        email: split_ws(input)[3],
    }
}

/// Zero-id sentinel: an insert that prepares successfully never carries a
/// row with id zero, so no such row can reach the table. (A zero id on disk
/// would read back as the end of the data.)
pub proof fn lemma_zero_id_rejected(input: Seq<u8>)
    requires
        upper_prefix_matches(input, insert_keyword()),
        prepare_result(input) is PreparedStatementSuccess,
    ensures
        prepared_insert_row(input).id != 0,
{
    assert(!upper_prefix_matches(input, select_keyword()));
}

/// The mathematical content of a sequence of tokens.
pub open spec fn token_views(toks: Seq<Vec<u8>>) -> Seq<Seq<u8>> {
    toks.map_values(|t: Vec<u8>| t@)
}

/// A word followed by input that starts with whitespace (or nothing) is the
/// leading word of their concatenation, and splitting the concatenation
/// yields the word followed by the split of the rest.
proof fn lemma_split_word(w: Seq<u8>, rest: Seq<u8>)
    requires
        w.len() >= 1,
        forall|i: int| 0 <= i < w.len() ==> !is_space(#[trigger] w[i]),
        rest.len() == 0 || is_space(rest[0]),
    ensures
        leading_word(w + rest) == w,
        split_ws(w + rest) == seq![w] + split_ws(rest),
    decreases w.len(),
{
    let s = w + rest;
    assert(s[0] == w[0]);
    if w.len() == 1 {
        assert(s.skip(1) =~= rest);
        if rest.len() == 0 {
            assert(leading_word(rest) =~= Seq::<u8>::empty());
        }
        assert(leading_word(s) == seq![s[0]] + leading_word(rest));
        assert(leading_word(s) =~= w);
        assert(s.skip(leading_word(s).len() as int) =~= rest);
    } else {
        lemma_split_word(w.skip(1), rest);
        assert(s.skip(1) =~= w.skip(1) + rest);
        assert(leading_word(s) == seq![s[0]] + leading_word(s.skip(1)));
        assert(leading_word(s) =~= w);
        assert(s.skip(leading_word(s).len() as int) =~= rest);
    }
    assert(split_ws(s) == seq![leading_word(s)] + split_ws(s.skip(leading_word(s).len() as int)));
}

/// The whitespace-separated tokens of a line of input.
pub fn tokenize(input: &Vec<u8>) -> (toks: Vec<Vec<u8>>)
    ensures
        token_views(toks@) == split_ws(input@),
{
    let n = input.len();
    let mut toks: Vec<Vec<u8>> = Vec::new();
    let mut i: usize = 0;
    assert(input@.skip(0) =~= input@);
    assert(token_views(toks@) =~= Seq::<Seq<u8>>::empty());
    assert(token_views(toks@) + split_ws(input@) =~= split_ws(input@));
    while i < n
        invariant
            n == input@.len(),
            i <= n,
            split_ws(input@) == token_views(toks@) + split_ws(input@.skip(i as int)),
        decreases n - i,
    {
        let ghost rem = input@.skip(i as int);
        let b = input[i];
        assert(rem[0] == b);
        if is_space_byte(b) {
            proof {
                assert(rem.skip(1) =~= input@.skip(i + 1));
                assert(split_ws(rem) == split_ws(input@.skip(i + 1)));
            }
            i = i + 1;
        } else {
            let start = i;
            let mut word: Vec<u8> = Vec::new();
            assert(word@ =~= input@.subrange(start as int, i as int));
            while i < n && !is_space_byte(input[i])
                invariant
                    n == input@.len(),
                    start <= i <= n,
                    word@ == input@.subrange(start as int, i as int),
                    forall|k: int| start <= k < i ==> !is_space(#[trigger] input@[k]),
                decreases n - i,
            {
                let c = input[i];
                word.push(c);
                assert(word@ =~= input@.subrange(start as int, i + 1 as int));
                i = i + 1;
            }
            proof {
                let w = input@.subrange(start as int, i as int);
                let rest = input@.skip(i as int);
                assert(forall|k: int| 0 <= k < w.len() ==> !is_space(#[trigger] w[k]));
                if i < n {
                    assert(rest[0] == input@[i as int]);
                }
                assert(rem =~= w + rest);
                lemma_split_word(w, rest);
                assert(token_views(toks@.push(word)) =~= token_views(toks@).push(word@));
                assert(token_views(toks@) + split_ws(rem) =~= token_views(toks@.push(word))
                    + split_ws(rest));
            }
            toks.push(word);
        }
    }
    proof {
        assert(input@.skip(n as int).len() == 0);
        assert(split_ws(input@.skip(n as int)) =~= Seq::<Seq<u8>>::empty());
        assert(token_views(toks@) + split_ws(input@.skip(n as int)) =~= token_views(toks@));
    }
    toks
}

/// Whether one byte is ASCII whitespace.
fn is_space_byte(b: u8) -> (r: bool)
    ensures
        r == is_space(b),
{
    b == 32 || b == 9 || b == 10 || b == 11 || b == 12 || b == 13
}

/// A digit string's value only grows as digits are appended.
proof fn lemma_digits_val_prefix(s: Seq<u8>, m: int)
    requires
        0 <= m <= s.len(),
    ensures
        digits_val(s) >= digits_val(s.subrange(0, m)),
    decreases s.len(),
{
    if m == s.len() {
        assert(s.subrange(0, m) =~= s);
    } else {
        lemma_digits_val_prefix(s.drop_last(), m);
        assert(s.drop_last().subrange(0, m) =~= s.subrange(0, m));
    }
}

/// Parse a token as an unsigned 32-bit number: an optional plus sign, then
/// one or more decimal digits, with a value that fits. Anything else yields
/// nothing.
pub fn parse_u32(tok: &Vec<u8>) -> (r: Option<u32>)
    ensures
        r is Some <==> is_valid_u32(tok@),
        r matches Some(v) ==> v == parsed_u32(tok@),
{
    let n = tok.len();
    let mut i: usize = 0;
    if n > 0 && tok[0] == 43 {
        i = 1;
    }
    let ghost d = numeral_digits(tok@);
    assert(d =~= tok@.subrange(i as int, n as int));
    if i >= n {
        assert(d.len() == 0);
        return None;
    }
    let start = i;
    let mut acc: u64 = 0;
    while i < n
        invariant
            n == tok@.len(),
            start <= i <= n,
            d == numeral_digits(tok@),
            d == tok@.subrange(start as int, n as int),
            acc == digits_val(tok@.subrange(start as int, i as int)),
            acc <= u32::MAX,
            forall|k: int| start <= k < i ==> is_digit(#[trigger] tok@[k]),
        decreases n - i,
    {
        let b = tok[i];
        if b < 48 || b > 57 {
            assert(!is_digit(d[i - start]));
            assert(!all_digits(d));
            return None;
        }
        let digit = (b - 48) as u64;
        let next = acc * 10 + digit;
        proof {
            assert(tok@.subrange(start as int, i + 1 as int).drop_last() =~= tok@.subrange(
                start as int,
                i as int,
            ));
            assert(tok@.subrange(start as int, i + 1 as int).last() == b);
        }
        if next > u32::MAX as u64 {
            proof {
                let p = tok@.subrange(start as int, i + 1 as int);
                assert(p =~= d.subrange(0, i + 1 - start));
                lemma_digits_val_prefix(d, i + 1 - start);
                assert(digits_val(d) > u32::MAX);
            }
            return None;
        }
        acc = next;
        i = i + 1;
    }
    assert(tok@.subrange(start as int, n as int) =~= d);
    assert(all_digits(d));
    assert(d.len() >= 1);
    Some(acc as u32)
}

/// A prepared statement: the classified statement type and, for an insert,
/// the row to insert.
pub struct PreparedStatement {
    pub statement_type: StatementType,
    pub row: SimpleRow,
}

impl PreparedStatement {
    /// A blank statement: invalid type, fresh row.
    pub fn new() -> (s: PreparedStatement)
        ensures
            s.statement_type is Invalid,
            s.row.wf(),
            s.row@.id == 0,
            s.row@.username == Seq::<u8>::empty(),
            s.row@.email == Seq::<u8>::empty(),
    {
        let row = SimpleRow::new();
        PreparedStatement { statement_type: StatementType::Invalid, row }
    }
}

/// Compare two keyword-length prefixes after ASCII upper-casing the input.
fn matches_keyword(input: &Vec<u8>, kw: &Vec<u8>) -> (r: bool)
    ensures
        r == upper_prefix_matches(input@, kw@),
{
    if input.len() < kw.len() {
        return false;
    }
    let n = kw.len();
    let mut i: usize = 0;
    while i < n
        invariant
            n == kw@.len() <= input@.len(),
            i <= n,
            forall|k: int| 0 <= k < i ==> to_upper(input@[k]) == kw@[k],
        decreases n - i,
    {
        let b = input[i];
        let up = if b >= 97 && b <= 122 {
            b - 32
        } else {
            b
        };
        assert(up == to_upper(input@[i as int]));
        if up != kw[i] {
            return false;
        }
        i = i + 1;
    }
    true
}

/// The bytes of the `SELECT` keyword.
fn select_keyword_bytes() -> (r: Vec<u8>)
    ensures
        r@ == select_keyword(),
{
    let mut v: Vec<u8> = Vec::new();
    v.push(83);
    v.push(69);
    v.push(76);
    v.push(69);
    v.push(67);
    v.push(84);
    assert(v@ =~= select_keyword());
    v
}

/// The bytes of the `INSERT` keyword.
fn insert_keyword_bytes() -> (r: Vec<u8>)
    ensures
        r@ == insert_keyword(),
{
    let mut v: Vec<u8> = Vec::new();
    v.push(73);
    v.push(78);
    v.push(83);
    v.push(69);
    v.push(82);
    v.push(84);
    assert(v@ =~= insert_keyword());
    v
}

/// Prepare one line of input into `statement`.
///
/// A line whose upper-cased prefix is `SELECT` prepares a select. One whose
/// prefix is `INSERT` prepares an insert from its whitespace-separated
/// tokens `INSERT <id> <username> <email>` and reports a syntax error on
/// fewer than four tokens or an id that reads as zero, and a preparation
/// error on an over-long username or email. Any other line is unrecognized
/// and leaves the statement untouched.
pub fn do_prepared_statements(input: &Vec<u8>, statement: &mut PreparedStatement) -> (r:
    PreparedStatementResult)
    requires
        old(statement).row.wf(),
    ensures
        r == prepare_result(input@),
        final(statement).row.wf(),
        upper_prefix_matches(input@, select_keyword()) ==> final(statement).statement_type is Select
            && final(statement).row == old(statement).row,
        upper_prefix_matches(input@, insert_keyword()) && !upper_prefix_matches(
            input@,
            select_keyword(),
        ) ==> final(statement).statement_type is Insert,
        r is PreparedStatementSuccess && upper_prefix_matches(input@, insert_keyword())
            && !upper_prefix_matches(input@, select_keyword()) ==> final(statement).row@
            == prepared_insert_row(input@),
        r is PreparedStatementUnrecognized ==> *final(statement) == *old(statement),
{
    let select_kw = select_keyword_bytes();
    let insert_kw = insert_keyword_bytes();
    if matches_keyword(input, &select_kw) {
        statement.statement_type = StatementType::Select;
        return PreparedStatementResult::PreparedStatementSuccess;
    }
    if matches_keyword(input, &insert_kw) {
        statement.statement_type = StatementType::Insert;
        let toks = tokenize(input);
        if toks.len() < 4 {
            return PreparedStatementResult::PreparedStatementSyntaxError;
        }
        let id = match parse_u32(&toks[1]) {
            Some(v) => v,
            None => 0,
        };
        assert(id == id_of(split_ws(input@)[1]));
        if id == 0 {
            return PreparedStatementResult::PreparedStatementSyntaxError;
        }
        statement.row.set_id(id);
        if !statement.row.set_username(&toks[2]) {
            return PreparedStatementResult::PreparedStatementError;
        }
        if !statement.row.set_email(&toks[3]) {
            return PreparedStatementResult::PreparedStatementError;
        }
        assert(statement.row@ =~= prepared_insert_row(input@));
        return PreparedStatementResult::PreparedStatementSuccess;
    }
    PreparedStatementResult::PreparedStatementUnrecognized
}

} // verus!
