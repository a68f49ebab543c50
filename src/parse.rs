use crate::text::{chars_to_string, push_slice, str_chars};
use crate::tm::{
    lemma_names_push, lemma_same_declarations_same_behavior, names, same_behavior, same_declarations,
    BuilderModel, MachineModel, HeadDirection, ItemModel, TMBuilder, TransferFnItem,
    DEFAULT_EMPTY, TM,
};
use vstd::string::StringExecFns;
use vstd::prelude::*;

verus! {

/// Whether `c` separates tokens.
pub open spec fn is_ws(c: char) -> bool {
    c == ' ' || c == '\t' || c == '\n' || c == '\r'
}

/// Whether `c` may start a name.
pub open spec fn is_ident_start(c: char) -> bool {
    ('a' <= c && c <= 'z') || ('A' <= c && c <= 'Z') || c == '_'
}

/// Whether `c` may continue a name.
pub open spec fn is_ident_char(c: char) -> bool {
    is_ident_start(c) || ('0' <= c && c <= '9')
}

/// Whether `c` may stand as a symbol: any character but white space and
/// the punctuation of the language.
pub open spec fn is_sym_char(c: char) -> bool {
    !is_ws(c) && c != '{' && c != '}' && c != '(' && c != ')' && c != ',' && c != ';' && c != '='
        && c != '/'
}

/// The position from `i` on past white space and `//` comments (`comment`:
/// whether `i` lies inside a comment).
pub open spec fn skip(s: Seq<char>, i: int, comment: bool) -> int
    decreases s.len() - i,
{
    if i < 0 || i >= s.len() {
        i
    } else if comment {
        skip(s, i + 1, s[i] != '\n')
    } else if is_ws(s[i]) {
        skip(s, i + 1, false)
    } else if s[i] == '/' && i + 1 < s.len() && s[i + 1] == '/' {
        skip(s, i + 2, true)
    } else {
        i
    }
}

/// Where the next token after position `i` starts.
pub open spec fn next(s: Seq<char>, i: int) -> int {
    skip(s, i, false)
}

pub proof fn lemma_skip(s: Seq<char>, i: int, comment: bool)
    requires
        0 <= i <= s.len(),
    ensures
        i <= skip(s, i, comment) <= s.len(),
    decreases s.len() - i,
{
    if i < s.len() {
        if comment {
            lemma_skip(s, i + 1, s[i] != '\n');
        } else if is_ws(s[i]) {
            lemma_skip(s, i + 1, false);
        } else if s[i] == '/' && i + 1 < s.len() && s[i + 1] == '/' {
            lemma_skip(s, i + 2, true);
        }
    }
}

/// The end of the name whose characters run from `i`.
pub open spec fn ident_end(s: Seq<char>, i: int) -> int
    decreases s.len() - i,
{
    if 0 <= i < s.len() && is_ident_char(s[i]) {
        ident_end(s, i + 1)
    } else {
        i
    }
}

pub proof fn lemma_ident_end(s: Seq<char>, i: int)
    requires
        0 <= i <= s.len(),
    ensures
        i <= ident_end(s, i) <= s.len(),
    decreases s.len() - i,
{
    if i < s.len() && is_ident_char(s[i]) {
        lemma_ident_end(s, i + 1);
    }
}

/// The punctuation character `c` as the next token: the position after it,
/// or the position of the token found instead.
pub open spec fn punct(s: Seq<char>, i: int, c: char) -> Result<int, int> {
    let k = next(s, i);
    if 0 <= k < s.len() && s[k] == c {
        Ok(k + 1)
    } else {
        Err(k)
    }
}

/// A name as the next token.
pub open spec fn ident(s: Seq<char>, i: int) -> Result<(Seq<char>, int), int> {
    let k = next(s, i);
    if 0 <= k < s.len() && is_ident_start(s[k]) {
        let e = ident_end(s, k + 1);
        Ok((s.subrange(k, e), e))
    } else {
        Err(k)
    }
}

/// A symbol as the next token.
pub open spec fn sym(s: Seq<char>, i: int) -> Result<(char, int), int> {
    let k = next(s, i);
    if 0 <= k < s.len() && is_sym_char(s[k]) {
        Ok((s[k], k + 1))
    } else {
        Err(k)
    }
}

/// Whether the next token starts with the word `w`.
pub open spec fn at_word(s: Seq<char>, i: int, w: Seq<char>) -> bool {
    let k = next(s, i);
    0 <= k && k + w.len() <= s.len() && s.subrange(k, k + w.len()) == w
}

/// The head of an assignment, `w =`: the position after it.
pub open spec fn assign_open(s: Seq<char>, i: int, w: Seq<char>) -> Result<int, int> {
    if at_word(s, i, w) {
        punct(s, next(s, i) + w.len(), '=')
    } else {
        Err(next(s, i))
    }
}

/// The head of a block, `w = {`: the position after it.
pub open spec fn block_open(s: Seq<char>, i: int, w: Seq<char>) -> Result<int, int> {
    match assign_open(s, i, w) {
        Ok(j) => punct(s, j, '{'),
        Err(p) => Err(p),
    }
}

pub proof fn lemma_tokens(s: Seq<char>, i: int)
    ensures
        0 <= i <= s.len() ==> i <= next(s, i) <= s.len(),
        forall|c: char| #[trigger] punct(s, i, c) matches Ok(j) ==> 0 <= i < j <= s.len(),
        ident(s, i) matches Ok((_, j)) ==> 0 <= i < j <= s.len(),
        sym(s, i) matches Ok((_, j)) ==> 0 <= i < j <= s.len(),
{
    if 0 <= i <= s.len() {
        lemma_skip(s, i, false);
        let k = next(s, i);
        if k < s.len() {
            lemma_ident_end(s, k + 1);
        }
    }
}

/// The characters of a token.
fn token(s: &Vec<char>, lo: usize, hi: usize) -> (r: String)
    requires
        lo <= hi <= s@.len(),
    ensures
        r@ == s@.subrange(lo as int, hi as int),
{
    let mut v: Vec<char> = Vec::new();
    push_slice(&mut v, s.as_slice(), lo, hi);
    chars_to_string(v.as_slice())
}

fn is_ws_exec(c: char) -> (r: bool)
    ensures
        r == is_ws(c),
{
    c == ' ' || c == '\t' || c == '\n' || c == '\r'
}

fn is_ident_start_exec(c: char) -> (r: bool)
    ensures
        r == is_ident_start(c),
{
    ('a' <= c && c <= 'z') || ('A' <= c && c <= 'Z') || c == '_'
}

fn is_ident_char_exec(c: char) -> (r: bool)
    ensures
        r == is_ident_char(c),
{
    is_ident_start_exec(c) || ('0' <= c && c <= '9')
}

fn is_sym_char_exec(c: char) -> (r: bool)
    ensures
        r == is_sym_char(c),
{
    !is_ws_exec(c) && c != '{' && c != '}' && c != '(' && c != ')' && c != ',' && c != ';' && c
        != '=' && c != '/'
}

fn trivia_at(s: &Vec<char>, j: usize, comment: bool) -> (r: bool)
    requires
        j < s@.len(),
    ensures
        r == (comment || is_ws(s@[j as int]) || (s@[j as int] == '/' && j + 1 < s@.len() && s@[j
            + 1] == '/')),
{
    comment || is_ws_exec(s[j]) || (s[j] == '/' && s.len() - j > 1 && s[j + 1] == '/')
}

fn next_exec(s: &Vec<char>, i: usize) -> (r: usize)
    requires
        i <= s@.len(),
    ensures
        r == next(s@, i as int),
        i <= r <= s@.len(),
{
    proof {
        lemma_skip(s@, i as int, false);
    }
    let mut j = i;
    let mut comment = false;
    while j < s.len() && trivia_at(s, j, comment)
        invariant
            i <= j <= s@.len(),
            skip(s@, j as int, comment) == skip(s@, i as int, false),
        decreases s@.len() - j,
    {
        if comment {
            comment = s[j] != '\n';
            j = j + 1;
        } else if is_ws_exec(s[j]) {
            j = j + 1;
        } else {
            j = j + 2;
            comment = true;
        }
    }
    j
}

fn punct_exec(s: &Vec<char>, i: usize, c: char) -> (r: Result<usize, usize>)
    requires
        i <= s@.len(),
    ensures
        match r {
            Ok(j) => punct(s@, i as int, c) == Ok::<int, int>(j as int),
            Err(p) => punct(s@, i as int, c) == Err::<int, int>(p as int),
        },
        r matches Ok(j) ==> i < j <= s@.len(),
        r matches Err(p) ==> p <= s@.len(),
{
    let k = next_exec(s, i);
    if k < s.len() && s[k] == c {
        Ok(k + 1)
    } else {
        Err(k)
    }
}

fn ident_exec(s: &Vec<char>, i: usize) -> (r: Result<(String, usize), usize>)
    requires
        i <= s@.len(),
    ensures
        match r {
            Ok((y, j)) => ident(s@, i as int) == Ok::<(Seq<char>, int), int>((y@, j as int)),
            Err(p) => ident(s@, i as int) == Err::<(Seq<char>, int), int>(p as int),
        },
        r matches Ok((_, j)) ==> i < j <= s@.len(),
        r matches Err(p) ==> p <= s@.len(),
{
    proof {
        lemma_tokens(s@, i as int);
    }
    let k = next_exec(s, i);
    if k < s.len() && is_ident_start_exec(s[k]) {
        proof {
            lemma_ident_end(s@, k + 1);
        }
        let mut e = k + 1;
        while e < s.len() && is_ident_char_exec(s[e])
            invariant
                k < e <= s@.len(),
                ident_end(s@, e as int) == ident_end(s@, k + 1),
            decreases s@.len() - e,
        {
            e = e + 1;
        }
        Ok((token(s, k, e), e))
    } else {
        Err(k)
    }
}

fn sym_exec(s: &Vec<char>, i: usize) -> (r: Result<(char, usize), usize>)
    requires
        i <= s@.len(),
    ensures
        match r {
            Ok((c, j)) => sym(s@, i as int) == Ok::<(char, int), int>((c, j as int)),
            Err(p) => sym(s@, i as int) == Err::<(char, int), int>(p as int),
        },
        r matches Ok((_, j)) ==> i < j <= s@.len(),
        r matches Err(p) ==> p <= s@.len(),
{
    let k = next_exec(s, i);
    if k < s.len() && is_sym_char_exec(s[k]) {
        Ok((s[k], k + 1))
    } else {
        Err(k)
    }
}

fn at_word_exec(s: &Vec<char>, i: usize, w: &str) -> (r: bool)
    requires
        i <= s@.len(),
    ensures
        r == at_word(s@, i as int, w@),
{
    let k = next_exec(s, i);
    let wc = str_chars(w);
    if wc.len() > s.len() - k {
        return false;
    }
    let mut j: usize = 0;
    while j < wc.len()
        invariant
            j <= wc@.len(),
            wc@ == w@,
            s@.len() <= usize::MAX,
            k == next(s@, i as int),
            k + wc@.len() <= s@.len(),
            forall|m: int| 0 <= m < j ==> s@[k + m] == wc@[m],
        decreases wc@.len() - j,
    {
        if s[k + j] != wc[j] {
            assert(s@.subrange(k as int, k + wc@.len())[j as int] != w@[j as int]);
            assert(s@.subrange(k as int, k + wc@.len()) != w@);
            return false;
        }
        j = j + 1;
    }
    assert(s@.subrange(k as int, k + wc@.len()) =~= w@);
    true
}

/// The arrow `->` as the next token.
pub open spec fn arrow(s: Seq<char>, i: int) -> Result<int, int> {
    let k = next(s, i);
    if 0 <= k && k + 1 < s.len() && s[k] == '-' && s[k + 1] == '>' {
        Ok(k + 2)
    } else {
        Err(k)
    }
}

/// A transition rule as written: `(from, read) -> (to, write, dir)`.
pub struct RuleModel {
    pub from: Seq<char>,
    pub read: char,
    pub to: Seq<char>,
    pub write: char,
    pub dir: Seq<char>,
}

/// A rule as the next tokens.
pub open spec fn rule(s: Seq<char>, i: int) -> Result<(RuleModel, int), int> {
    match punct(s, i, '(') {
        Err(p) => Err(p),
        Ok(i1) => match ident(s, i1) {
            Err(p) => Err(p),
            Ok((from, i2)) => match punct(s, i2, ',') {
                Err(p) => Err(p),
                Ok(i3) => match sym(s, i3) {
                    Err(p) => Err(p),
                    Ok((read, i4)) => match punct(s, i4, ')') {
                        Err(p) => Err(p),
                        Ok(i5) => match arrow(s, i5) {
                            Err(p) => Err(p),
                            Ok(i6) => match punct(s, i6, '(') {
                                Err(p) => Err(p),
                                Ok(i7) => match ident(s, i7) {
                                    Err(p) => Err(p),
                                    Ok((to, i8)) => match punct(s, i8, ',') {
                                        Err(p) => Err(p),
                                        Ok(i9) => match sym(s, i9) {
                                            Err(p) => Err(p),
                                            Ok((write, i10)) => match punct(s, i10, ',') {
                                                Err(p) => Err(p),
                                                Ok(i11) => match ident(s, i11) {
                                                    Err(p) => Err(p),
                                                    Ok((dir, i12)) => match punct(s, i12, ')') {
                                                        Err(p) => Err(p),
                                                        Ok(i13) => Ok(
                                                            (RuleModel { from, read, to, write, dir }, i13),
                                                        ),
                                                    },
                                                },
                                            },
                                        },
                                    },
                                },
                            },
                        },
                    },
                },
            },
        },
    }
}

pub proof fn lemma_rule(s: Seq<char>, i: int)
    ensures
        rule(s, i) matches Ok((_, j)) ==> 0 <= i < j <= s.len(),
{
    lemma_tokens(s, i);
    if let Ok(i1) = punct(s, i, '(') {
        lemma_tokens(s, i1);
        if let Ok((_, i2)) = ident(s, i1) {
            lemma_tokens(s, i2);
            if let Ok(i3) = punct(s, i2, ',') {
                lemma_tokens(s, i3);
                if let Ok((_, i4)) = sym(s, i3) {
                    lemma_tokens(s, i4);
                    if let Ok(i5) = punct(s, i4, ')') {
                        lemma_tokens(s, i5);
                        if let Ok(i6) = arrow(s, i5) {
                            lemma_tokens(s, i6);
                            if let Ok(i7) = punct(s, i6, '(') {
                                lemma_tokens(s, i7);
                                if let Ok((_, i8)) = ident(s, i7) {
                                    lemma_tokens(s, i8);
                                    if let Ok(i9) = punct(s, i8, ',') {
                                        lemma_tokens(s, i9);
                                        if let Ok((_, i10)) = sym(s, i9) {
                                            lemma_tokens(s, i10);
                                            if let Ok(i11) = punct(s, i10, ',') {
                                                lemma_tokens(s, i11);
                                                if let Ok((_, i12)) = ident(s, i11) {
                                                    lemma_tokens(s, i12);
                                                }
                                            }
                                        }
                                    }
                                }
                            }
                        }
                    }
                }
            }
        }
    }
}

/// After an item of a list ending at `j`: the position after a `,` that
/// continues the list (`Ok(Some)`), `Ok(None)` where a `}` closes it, or
/// the position of what stands instead.
pub open spec fn list_sep(s: Seq<char>, j: int) -> Result<Option<int>, int> {
    let k = next(s, j);
    if 0 <= k < s.len() && s[k] == ',' {
        Ok(Some(k + 1))
    } else if 0 <= k < s.len() && s[k] == '}' {
        Ok(None)
    } else {
        Err(k)
    }
}

/// The names of a list from position `i` to its `}`, after those in `acc`.
pub open spec fn ident_items(s: Seq<char>, i: int, acc: Seq<Seq<char>>) -> Result<(Seq<Seq<char>>, int), int>
    decreases s.len() - i,
{
    match ident(s, i) {
        Err(p) => Err(p),
        Ok((x, j)) => match list_sep(s, j) {
            Err(p) => Err(p),
            Ok(None) => Ok((acc.push(x), next(s, j) + 1)),
            Ok(Some(k)) => {
                proof {
                    lemma_tokens(s, i);
                    lemma_tokens(s, j);
                }
                ident_items(s, k, acc.push(x))
            },
        },
    }
}

/// The symbols of a list from position `i` to its `}`, after those in `acc`.
pub open spec fn sym_items(s: Seq<char>, i: int, acc: Seq<char>) -> Result<(Seq<char>, int), int>
    decreases s.len() - i,
{
    match sym(s, i) {
        Err(p) => Err(p),
        Ok((x, j)) => match list_sep(s, j) {
            Err(p) => Err(p),
            Ok(None) => Ok((acc.push(x), next(s, j) + 1)),
            Ok(Some(k)) => {
                proof {
                    lemma_tokens(s, i);
                    lemma_tokens(s, j);
                }
                sym_items(s, k, acc.push(x))
            },
        },
    }
}

/// The rules of a list from position `i` to its `}`, after those in `acc`.
pub open spec fn rule_items(s: Seq<char>, i: int, acc: Seq<RuleModel>) -> Result<(Seq<RuleModel>, int), int>
    decreases s.len() - i,
{
    match rule(s, i) {
        Err(p) => Err(p),
        Ok((x, j)) => match list_sep(s, j) {
            Err(p) => Err(p),
            Ok(None) => Ok((acc.push(x), next(s, j) + 1)),
            Ok(Some(k)) => {
                proof {
                    lemma_rule(s, i);
                    lemma_tokens(s, j);
                }
                rule_items(s, k, acc.push(x))
            },
        },
    }
}

/// A list of names after its `{`, with its `}`; it may be empty.
pub open spec fn ident_list(s: Seq<char>, i: int) -> Result<(Seq<Seq<char>>, int), int> {
    match punct(s, i, '}') {
        Ok(j) => Ok((seq![], j)),
        Err(_) => ident_items(s, i, seq![]),
    }
}

/// A list of symbols after its `{`, with its `}`; it may be empty.
pub open spec fn sym_list(s: Seq<char>, i: int) -> Result<(Seq<char>, int), int> {
    match punct(s, i, '}') {
        Ok(j) => Ok((seq![], j)),
        Err(_) => sym_items(s, i, seq![]),
    }
}

/// A list of rules after its `{`, with its `}`; it may be empty.
pub open spec fn rule_list(s: Seq<char>, i: int) -> Result<(Seq<RuleModel>, int), int> {
    match punct(s, i, '}') {
        Ok(j) => Ok((seq![], j)),
        Err(_) => rule_items(s, i, seq![]),
    }
}

/// The parts of a definition, each as written.
pub struct DefModel {
    pub states: Option<Seq<Seq<char>>>,
    pub syms: Seq<char>,
    pub tape_syms: Option<Seq<char>>,
    pub rules: Seq<RuleModel>,
    pub start: Option<Seq<char>>,
    pub finals: Seq<Seq<char>>,
    pub empty: Option<char>,
}

/// A block `w = { names };`.
pub open spec fn idents_block(s: Seq<char>, i: int, w: Seq<char>) -> Result<(Seq<Seq<char>>, int), int> {
    match block_open(s, i, w) {
        Err(p) => Err(p),
        Ok(j) => match ident_list(s, j) {
            Err(p) => Err(p),
            Ok((v, k)) => match punct(s, k, ';') {
                Err(p) => Err(p),
                Ok(e) => Ok((v, e)),
            },
        },
    }
}

/// A block `w = { symbols };`.
pub open spec fn syms_block(s: Seq<char>, i: int, w: Seq<char>) -> Result<(Seq<char>, int), int> {
    match block_open(s, i, w) {
        Err(p) => Err(p),
        Ok(j) => match sym_list(s, j) {
            Err(p) => Err(p),
            Ok((v, k)) => match punct(s, k, ';') {
                Err(p) => Err(p),
                Ok(e) => Ok((v, e)),
            },
        },
    }
}

/// The block `FnSet = { rules };`.
pub open spec fn rules_block(s: Seq<char>, i: int) -> Result<(Seq<RuleModel>, int), int> {
    match block_open(s, i, "FnSet"@) {
        Err(p) => Err(p),
        Ok(j) => match rule_list(s, j) {
            Err(p) => Err(p),
            Ok((v, k)) => match punct(s, k, ';') {
                Err(p) => Err(p),
                Ok(e) => Ok((v, e)),
            },
        },
    }
}

/// An optional block `w = { names };`, present where the next token starts
/// with `w`.
pub open spec fn opt_idents(s: Seq<char>, i: int, w: Seq<char>) -> Result<(Option<Seq<Seq<char>>>, int), int> {
    if at_word(s, i, w) {
        match idents_block(s, i, w) {
            Ok((v, e)) => Ok((Some(v), e)),
            Err(p) => Err(p),
        }
    } else {
        Ok((None, i))
    }
}

/// An optional block `w = { symbols };`.
pub open spec fn opt_syms(s: Seq<char>, i: int, w: Seq<char>) -> Result<(Option<Seq<char>>, int), int> {
    if at_word(s, i, w) {
        match syms_block(s, i, w) {
            Ok((v, e)) => Ok((Some(v), e)),
            Err(p) => Err(p),
        }
    } else {
        Ok((None, i))
    }
}

/// An optional `Start = name;`.
pub open spec fn opt_start(s: Seq<char>, i: int) -> Result<(Option<Seq<char>>, int), int> {
    if at_word(s, i, "Start"@) {
        match assign_open(s, i, "Start"@) {
            Err(p) => Err(p),
            Ok(j) => match ident(s, j) {
                Err(p) => Err(p),
                Ok((x, k)) => match punct(s, k, ';') {
                    Err(p) => Err(p),
                    Ok(e) => Ok((Some(x), e)),
                },
            },
        }
    } else {
        Ok((None, i))
    }
}

/// An optional `Empty = symbol;`.
pub open spec fn opt_empty(s: Seq<char>, i: int) -> Result<(Option<char>, int), int> {
    if at_word(s, i, "Empty"@) {
        match assign_open(s, i, "Empty"@) {
            Err(p) => Err(p),
            Ok(j) => match sym(s, j) {
                Err(p) => Err(p),
                Ok((x, k)) => match punct(s, k, ';') {
                    Err(p) => Err(p),
                    Ok(e) => Ok((Some(x), e)),
                },
            },
        }
    } else {
        Ok((None, i))
    }
}

/// A definition: its blocks in order, `StateSet`, `TapeSymbolSet`, `Start`
/// and `Empty` optional, then nothing but white space and comments. On a
/// text that does not follow the grammar, the position where it departs.
pub open spec fn parse_def(s: Seq<char>) -> Result<DefModel, int> {
    match opt_idents(s, 0, "StateSet"@) {
        Err(p) => Err(p),
        Ok((states, i1)) => match syms_block(s, i1, "SymbolSet"@) {
            Err(p) => Err(p),
            Ok((syms, i2)) => match opt_syms(s, i2, "TapeSymbolSet"@) {
                Err(p) => Err(p),
                Ok((tape_syms, i3)) => match rules_block(s, i3) {
                    Err(p) => Err(p),
                    Ok((rules, i4)) => match opt_start(s, i4) {
                        Err(p) => Err(p),
                        Ok((start, i5)) => match idents_block(s, i5, "FinalSet"@) {
                            Err(p) => Err(p),
                            Ok((finals, i6)) => match opt_empty(s, i6) {
                                Err(p) => Err(p),
                                Ok((empty, i7)) => if next(s, i7) == s.len() {
                                    Ok(DefModel { states, syms, tape_syms, rules, start, finals, empty })
                                } else {
                                    Err(next(s, i7))
                                },
                            },
                        },
                    },
                },
            },
        },
    }
}

fn assign_open_exec(s: &Vec<char>, i: usize, w: &str) -> (r: Result<usize, usize>)
    requires
        i <= s@.len(),
    ensures
        match r {
            Ok(j) => assign_open(s@, i as int, w@) == Ok::<int, int>(j as int),
            Err(p) => assign_open(s@, i as int, w@) == Err::<int, int>(p as int),
        },
        r matches Ok(j) ==> i < j <= s@.len(),
        r matches Err(p) ==> p <= s@.len(),
{
    let k = next_exec(s, i);
    if at_word_exec(s, i, w) {
        let wc = str_chars(w);
        let wl = wc.len();
        assert(k + wl <= s.len());
        punct_exec(s, k + wl, '=')
    } else {
        Err(k)
    }
}

fn block_open_exec(s: &Vec<char>, i: usize, w: &str) -> (r: Result<usize, usize>)
    requires
        i <= s@.len(),
    ensures
        match r {
            Ok(j) => block_open(s@, i as int, w@) == Ok::<int, int>(j as int),
            Err(p) => block_open(s@, i as int, w@) == Err::<int, int>(p as int),
        },
        r matches Ok(j) ==> i < j <= s@.len(),
        r matches Err(p) ==> p <= s@.len(),
{
    match assign_open_exec(s, i, w) {
        Ok(j) => punct_exec(s, j, '{'),
        Err(p) => Err(p),
    }
}

fn arrow_exec(s: &Vec<char>, i: usize) -> (r: Result<usize, usize>)
    requires
        i <= s@.len(),
    ensures
        match r {
            Ok(j) => arrow(s@, i as int) == Ok::<int, int>(j as int),
            Err(p) => arrow(s@, i as int) == Err::<int, int>(p as int),
        },
        r matches Ok(j) ==> i < j <= s@.len(),
        r matches Err(p) ==> p <= s@.len(),
{
    let k = next_exec(s, i);
    if s.len() - k > 1 && s[k] == '-' && s[k + 1] == '>' {
        Ok(k + 2)
    } else {
        Err(k)
    }
}

/// A rule as read from the text.
struct Rule {
    from: String,
    read: char,
    to: String,
    write: char,
    dir: String,
}

impl View for Rule {
    type V = RuleModel;

    closed spec fn view(&self) -> RuleModel {
        RuleModel { from: self.from@, read: self.read, to: self.to@, write: self.write, dir: self.dir@ }
    }
}

spec fn rule_models(v: Seq<Rule>) -> Seq<RuleModel> {
    v.map_values(|r: Rule| r@)
}

fn rule_exec(s: &Vec<char>, i: usize) -> (r: Result<(Rule, usize), usize>)
    requires
        i <= s@.len(),
    ensures
        match r {
            Ok((x, j)) => rule(s@, i as int) == Ok::<(RuleModel, int), int>((x@, j as int)),
            Err(p) => rule(s@, i as int) == Err::<(RuleModel, int), int>(p as int),
        },
        r matches Ok((_, j)) ==> i < j <= s@.len(),
        r matches Err(p) ==> p <= s@.len(),
{
    proof {
        lemma_rule(s@, i as int);
    }
    let i1 = match punct_exec(s, i, '(') {
        Ok(j) => j,
        Err(p) => return Err(p),
    };
    let (from, i2) = match ident_exec(s, i1) {
        Ok(v) => v,
        Err(p) => return Err(p),
    };
    let i3 = match punct_exec(s, i2, ',') {
        Ok(j) => j,
        Err(p) => return Err(p),
    };
    let (read, i4) = match sym_exec(s, i3) {
        Ok(v) => v,
        Err(p) => return Err(p),
    };
    let i5 = match punct_exec(s, i4, ')') {
        Ok(j) => j,
        Err(p) => return Err(p),
    };
    let i6 = match arrow_exec(s, i5) {
        Ok(j) => j,
        Err(p) => return Err(p),
    };
    let i7 = match punct_exec(s, i6, '(') {
        Ok(j) => j,
        Err(p) => return Err(p),
    };
    let (to, i8) = match ident_exec(s, i7) {
        Ok(v) => v,
        Err(p) => return Err(p),
    };
    let i9 = match punct_exec(s, i8, ',') {
        Ok(j) => j,
        Err(p) => return Err(p),
    };
    let (write, i10) = match sym_exec(s, i9) {
        Ok(v) => v,
        Err(p) => return Err(p),
    };
    let i11 = match punct_exec(s, i10, ',') {
        Ok(j) => j,
        Err(p) => return Err(p),
    };
    let (dir, i12) = match ident_exec(s, i11) {
        Ok(v) => v,
        Err(p) => return Err(p),
    };
    let i13 = match punct_exec(s, i12, ')') {
        Ok(j) => j,
        Err(p) => return Err(p),
    };
    Ok((Rule { from, read, to, write, dir }, i13))
}

fn list_sep_exec(s: &Vec<char>, j: usize) -> (r: Result<Option<usize>, usize>)
    requires
        j <= s@.len(),
    ensures
        match r {
            Ok(Some(k)) => list_sep(s@, j as int) == Ok::<Option<int>, int>(Some(k as int)),
            Ok(None) => list_sep(s@, j as int) == Ok::<Option<int>, int>(None),
            Err(p) => list_sep(s@, j as int) == Err::<Option<int>, int>(p as int),
        },
        r matches Ok(Some(k)) ==> j < k <= s@.len(),
        r matches Err(p) ==> p <= s@.len(),
        r matches Ok(None) ==> next(s@, j as int) < s@.len(),
{
    let k = next_exec(s, j);
    if k < s.len() && s[k] == ',' {
        Ok(Some(k + 1))
    } else if k < s.len() && s[k] == '}' {
        Ok(None)
    } else {
        Err(k)
    }
}

fn ident_list_exec(s: &Vec<char>, i: usize) -> (r: Result<(Vec<String>, usize), usize>)
    requires
        i <= s@.len(),
    ensures
        match r {
            Ok((v, j)) => ident_list(s@, i as int) == Ok::<(Seq<Seq<char>>, int), int>((names(v@), j as int)),
            Err(p) => ident_list(s@, i as int) == Err::<(Seq<Seq<char>>, int), int>(p as int),
        },
        r matches Ok((_, j)) ==> j <= s@.len(),
        r matches Err(p) ==> p <= s@.len(),
{
    let mut acc: Vec<String> = Vec::new();
    if let Ok(j) = punct_exec(s, i, '}') {
        assert(names(acc@) =~= seq![]);
        return Ok((acc, j));
    }
    assert(names(acc@) =~= seq![]);
    let mut pos = i;
    loop
        invariant
            pos <= s@.len(),
            ident_items(s@, pos as int, names(acc@)) == ident_list(s@, i as int),
        decreases s@.len() - pos,
    {
        let (x, j) = match ident_exec(s, pos) {
            Ok(v) => v,
            Err(p) => return Err(p),
        };
        proof {
            lemma_names_push(acc@, x);
        }
        match list_sep_exec(s, j) {
            Err(p) => return Err(p),
            Ok(None) => {
                let k = next_exec(s, j);
                let n = s.len();
                assert(k < n);
                acc.push(x);
                return Ok((acc, k + 1));
            },
            Ok(Some(k)) => {
                acc.push(x);
                pos = k;
            },
        }
    }
}

fn sym_list_exec(s: &Vec<char>, i: usize) -> (r: Result<(Vec<char>, usize), usize>)
    requires
        i <= s@.len(),
    ensures
        match r {
            Ok((v, j)) => sym_list(s@, i as int) == Ok::<(Seq<char>, int), int>((v@, j as int)),
            Err(p) => sym_list(s@, i as int) == Err::<(Seq<char>, int), int>(p as int),
        },
        r matches Ok((_, j)) ==> j <= s@.len(),
        r matches Err(p) ==> p <= s@.len(),
{
    let mut acc: Vec<char> = Vec::new();
    if let Ok(j) = punct_exec(s, i, '}') {
        return Ok((acc, j));
    }
    assert(acc@ =~= seq![]);
    let mut pos = i;
    loop
        invariant
            pos <= s@.len(),
            sym_items(s@, pos as int, acc@) == sym_list(s@, i as int),
        decreases s@.len() - pos,
    {
        let (x, j) = match sym_exec(s, pos) {
            Ok(v) => v,
            Err(p) => return Err(p),
        };
        match list_sep_exec(s, j) {
            Err(p) => return Err(p),
            Ok(None) => {
                let k = next_exec(s, j);
                let n = s.len();
                assert(k < n);
                acc.push(x);
                return Ok((acc, k + 1));
            },
            Ok(Some(k)) => {
                acc.push(x);
                pos = k;
            },
        }
    }
}

fn rule_list_exec(s: &Vec<char>, i: usize) -> (r: Result<(Vec<Rule>, usize), usize>)
    requires
        i <= s@.len(),
    ensures
        match r {
            Ok((v, j)) => rule_list(s@, i as int) == Ok::<(Seq<RuleModel>, int), int>((rule_models(v@), j as int)),
            Err(p) => rule_list(s@, i as int) == Err::<(Seq<RuleModel>, int), int>(p as int),
        },
        r matches Ok((_, j)) ==> j <= s@.len(),
        r matches Err(p) ==> p <= s@.len(),
{
    let mut acc: Vec<Rule> = Vec::new();
    if let Ok(j) = punct_exec(s, i, '}') {
        assert(rule_models(acc@) =~= seq![]);
        return Ok((acc, j));
    }
    assert(rule_models(acc@) =~= seq![]);
    let mut pos = i;
    loop
        invariant
            pos <= s@.len(),
            rule_items(s@, pos as int, rule_models(acc@)) == rule_list(s@, i as int),
        decreases s@.len() - pos,
    {
        let (x, j) = match rule_exec(s, pos) {
            Ok(v) => v,
            Err(p) => return Err(p),
        };
        let ghost before = acc@;
        match list_sep_exec(s, j) {
            Err(p) => return Err(p),
            Ok(None) => {
                let k = next_exec(s, j);
                let n = s.len();
                assert(k < n);
                acc.push(x);
                assert(rule_models(acc@) =~= rule_models(before).push(acc@.last()@));
                return Ok((acc, k + 1));
            },
            Ok(Some(k)) => {
                acc.push(x);
                assert(rule_models(acc@) =~= rule_models(before).push(acc@.last()@));
                pos = k;
            },
        }
    }
}


fn idents_block_exec(s: &Vec<char>, i: usize, w: &str) -> (r: Result<(Vec<String>, usize), usize>)
    requires
        i <= s@.len(),
    ensures
        match r {
            Ok((v, j)) => idents_block(s@, i as int, w@) == Ok::<(Seq<Seq<char>>, int), int>((names(v@), j as int)),
            Err(p) => idents_block(s@, i as int, w@) == Err::<(Seq<Seq<char>>, int), int>(p as int),
        },
        r matches Ok((_, j)) ==> j <= s@.len(),
        r matches Err(p) ==> p <= s@.len(),
{
    let j = match block_open_exec(s, i, w) {
        Ok(j) => j,
        Err(p) => return Err(p),
    };
    let (v, k) = match ident_list_exec(s, j) {
        Ok(x) => x,
        Err(p) => return Err(p),
    };
    match punct_exec(s, k, ';') {
        Ok(e) => Ok((v, e)),
        Err(p) => Err(p),
    }
}

fn syms_block_exec(s: &Vec<char>, i: usize, w: &str) -> (r: Result<(Vec<char>, usize), usize>)
    requires
        i <= s@.len(),
    ensures
        match r {
            Ok((v, j)) => syms_block(s@, i as int, w@) == Ok::<(Seq<char>, int), int>((v@, j as int)),
            Err(p) => syms_block(s@, i as int, w@) == Err::<(Seq<char>, int), int>(p as int),
        },
        r matches Ok((_, j)) ==> j <= s@.len(),
        r matches Err(p) ==> p <= s@.len(),
{
    let j = match block_open_exec(s, i, w) {
        Ok(j) => j,
        Err(p) => return Err(p),
    };
    let (v, k) = match sym_list_exec(s, j) {
        Ok(x) => x,
        Err(p) => return Err(p),
    };
    match punct_exec(s, k, ';') {
        Ok(e) => Ok((v, e)),
        Err(p) => Err(p),
    }
}

fn rules_block_exec(s: &Vec<char>, i: usize) -> (r: Result<(Vec<Rule>, usize), usize>)
    requires
        i <= s@.len(),
    ensures
        match r {
            Ok((v, j)) => rules_block(s@, i as int) == Ok::<(Seq<RuleModel>, int), int>((rule_models(v@), j as int)),
            Err(p) => rules_block(s@, i as int) == Err::<(Seq<RuleModel>, int), int>(p as int),
        },
        r matches Ok((_, j)) ==> j <= s@.len(),
        r matches Err(p) ==> p <= s@.len(),
{
    let j = match block_open_exec(s, i, "FnSet") {
        Ok(j) => j,
        Err(p) => return Err(p),
    };
    let (v, k) = match rule_list_exec(s, j) {
        Ok(x) => x,
        Err(p) => return Err(p),
    };
    match punct_exec(s, k, ';') {
        Ok(e) => Ok((v, e)),
        Err(p) => Err(p),
    }
}

/// A definition as read from the text.
struct Def {
    states: Option<Vec<String>>,
    syms: Vec<char>,
    tape_syms: Option<Vec<char>>,
    rules: Vec<Rule>,
    start: Option<String>,
    finals: Vec<String>,
    empty: Option<char>,
}

impl View for Def {
    type V = DefModel;

    closed spec fn view(&self) -> DefModel {
        DefModel {
            states: match self.states {
                Some(v) => Some(names(v@)),
                None => None,
            },
            syms: self.syms@,
            tape_syms: match self.tape_syms {
                Some(v) => Some(v@),
                None => None,
            },
            rules: rule_models(self.rules@),
            start: match self.start {
                Some(x) => Some(x@),
                None => None,
            },
            finals: names(self.finals@),
            empty: self.empty,
        }
    }
}

fn parse_def_exec(s: &Vec<char>) -> (r: Result<Def, usize>)
    ensures
        match r {
            Ok(d) => parse_def(s@) == Ok::<DefModel, int>(d@),
            Err(p) => parse_def(s@) == Err::<DefModel, int>(p as int),
        },
        r matches Err(p) ==> p <= s@.len(),
{
    let (states, i1) = if at_word_exec(s, 0, "StateSet") {
        match idents_block_exec(s, 0, "StateSet") {
            Ok((v, e)) => (Some(v), e),
            Err(p) => return Err(p),
        }
    } else {
        (None, 0)
    };
    let (syms, i2) = match syms_block_exec(s, i1, "SymbolSet") {
        Ok(x) => x,
        Err(p) => return Err(p),
    };
    let (tape_syms, i3) = if at_word_exec(s, i2, "TapeSymbolSet") {
        match syms_block_exec(s, i2, "TapeSymbolSet") {
            Ok((v, e)) => (Some(v), e),
            Err(p) => return Err(p),
        }
    } else {
        (None, i2)
    };
    let (rules, i4) = match rules_block_exec(s, i3) {
        Ok(x) => x,
        Err(p) => return Err(p),
    };
    let (start, i5) = if at_word_exec(s, i4, "Start") {
        let j = match assign_open_exec(s, i4, "Start") {
            Ok(j) => j,
            Err(p) => return Err(p),
        };
        let (x, k) = match ident_exec(s, j) {
            Ok(v) => v,
            Err(p) => return Err(p),
        };
        match punct_exec(s, k, ';') {
            Ok(e) => (Some(x), e),
            Err(p) => return Err(p),
        }
    } else {
        (None, i4)
    };
    let (finals, i6) = match idents_block_exec(s, i5, "FinalSet") {
        Ok(x) => x,
        Err(p) => return Err(p),
    };
    let (empty, i7) = if at_word_exec(s, i6, "Empty") {
        let j = match assign_open_exec(s, i6, "Empty") {
            Ok(j) => j,
            Err(p) => return Err(p),
        };
        let (x, k) = match sym_exec(s, j) {
            Ok(v) => v,
            Err(p) => return Err(p),
        };
        match punct_exec(s, k, ';') {
            Ok(e) => (Some(x), e),
            Err(p) => return Err(p),
        }
    } else {
        (None, i6)
    };
    let end = next_exec(s, i7);
    if end != s.len() {
        return Err(end);
    }
    Ok(Def { states, syms, tape_syms, rules, start, finals, empty })
}

/// Whether a direction token is one of `L`, `R`, `S`.
pub open spec fn valid_dir(t: Seq<char>) -> bool {
    t == "L"@ || t == "R"@ || t == "S"@
}

/// The head move that a valid direction token names.
pub open spec fn dir_of(t: Seq<char>) -> HeadDirection {
    if t == "L"@ {
        HeadDirection::Left
    } else if t == "R"@ {
        HeadDirection::Right
    } else {
        HeadDirection::Stop
    }
}

/// The message for the first rule whose direction token is not valid.
pub open spec fn dir_error(rules: Seq<RuleModel>) -> Option<Seq<char>>
    decreases rules.len(),
{
    if rules.len() == 0 {
        None
    } else if !valid_dir(rules[0].dir) {
        Some("invalid head direction: "@ + rules[0].dir)
    } else {
        dir_error(rules.drop_first())
    }
}

/// The states that the rules mention, two for each rule, in order.
pub open spec fn rule_states(rules: Seq<RuleModel>) -> Seq<Seq<char>>
    decreases rules.len(),
{
    if rules.len() == 0 {
        seq![]
    } else {
        rule_states(rules.drop_last()).push(rules.last().from).push(rules.last().to)
    }
}

/// The symbols that the rules read and write, two for each rule, in order.
pub open spec fn rule_syms(rules: Seq<RuleModel>) -> Seq<char>
    decreases rules.len(),
{
    if rules.len() == 0 {
        seq![]
    } else {
        rule_syms(rules.drop_last()).push(rules.last().read).push(rules.last().write)
    }
}

/// The start state: the declared one, else the source of the first rule,
/// else `q0`.
pub open spec fn def_start(d: DefModel) -> Seq<char> {
    match d.start {
        Some(x) => x,
        None => if d.rules.len() > 0 {
            d.rules[0].from
        } else {
            "q0"@
        },
    }
}

/// The transition item of a rule.
pub open spec fn rule_item(r: RuleModel) -> ItemModel {
    ItemModel { from: Some((r.from, r.read)), to: Some((r.to, Some(r.write), dir_of(r.dir))) }
}

/// What a definition declares, in the order it is handed to a builder:
/// states (those of the rules where no state set is given), input symbols,
/// tape symbols (those of the rules where none are given), the start state,
/// the accept states, the empty symbol (`B` where none is given) and the
/// rules.
pub open spec fn def_builder(d: DefModel) -> BuilderModel {
    let states = match d.states {
        Some(v) => v,
        None => rule_states(d.rules),
    };
    let tape = match d.tape_syms {
        Some(v) => v,
        None => rule_syms(d.rules),
    };
    let empty = match d.empty {
        Some(c) => c,
        None => DEFAULT_EMPTY,
    };
    BuilderModel {
        states: states + seq![def_start(d)] + d.finals,
        start: Some(def_start(d)),
        accept: d.finals,
        syms: d.syms,
        tape_syms: d.syms + tape + seq![empty],
        empty: Some(empty),
        items: d.rules.map_values(|r: RuleModel| rule_item(r)),
    }
}

fn dir_exec(t: &String) -> (r: Option<HeadDirection>)
    ensures
        match r {
            Some(d) => valid_dir(t@) && d == dir_of(t@),
            None => !valid_dir(t@),
        },
{
    if *t == String::from_str("L") {
        Some(HeadDirection::Left)
    } else if *t == String::from_str("R") {
        Some(HeadDirection::Right)
    } else if *t == String::from_str("S") {
        Some(HeadDirection::Stop)
    } else {
        None
    }
}

fn check_dirs(rules: &Vec<Rule>) -> (r: Result<Vec<HeadDirection>, String>)
    ensures
        match r {
            Ok(ds) => dir_error(rule_models(rules@)) is None && ds@.len() == rules@.len() && forall|i: int|
                0 <= i < ds@.len() ==> ds@[i] == dir_of(#[trigger] rules@[i]@.dir),
            Err(e) => dir_error(rule_models(rules@)) == Some(e@),
        },
{
    let ghost rs = rule_models(rules@);
    let mut ds: Vec<HeadDirection> = Vec::new();
    let mut i: usize = 0;
    assert(rs.skip(0) =~= rs);
    while i < rules.len()
        invariant
            i <= rules@.len(),
            rs == rule_models(rules@),
            dir_error(rs) == dir_error(rs.skip(i as int)),
            ds@.len() == i,
            forall|j: int| 0 <= j < i ==> ds@[j] == dir_of(#[trigger] rules@[j]@.dir),
        decreases rules@.len() - i,
    {
        assert(rs.skip(i as int).drop_first() =~= rs.skip(i + 1));
        assert(rs.skip(i as int)[0] == rules@[i as int]@);
        match dir_exec(&rules[i].dir) {
            Some(d) => ds.push(d),
            None => {
                let mut e = String::from_str("invalid head direction: ");
                e.append(rules[i].dir.as_str());
                return Err(e);
            },
        }
        i = i + 1;
    }
    assert(rs.skip(i as int) =~= seq![]);
    Ok(ds)
}

fn add_states(b: TMBuilder, v: &Vec<String>) -> (r: TMBuilder)
    ensures
        r@ == (BuilderModel { states: b@.states + names(v@), ..b@ }),
{
    let mut r = b;
    let mut i: usize = 0;
    while i < v.len()
        invariant
            i <= v@.len(),
            r@ == (BuilderModel { states: b@.states + names(v@).take(i as int), ..b@ }),
        decreases v@.len() - i,
    {
        assert(names(v@).take(i + 1) =~= names(v@).take(i as int).push(v@[i as int]@));
        assert(b@.states + names(v@).take(i + 1) =~= (b@.states + names(v@).take(i as int)).push(v@[i as int]@));
        r = r.state(v[i].as_str());
        i = i + 1;
    }
    assert(names(v@).take(v@.len() as int) =~= names(v@));
    r
}

fn add_accepts(b: TMBuilder, v: &Vec<String>) -> (r: TMBuilder)
    ensures
        r@ == (BuilderModel {
            states: b@.states + names(v@),
            accept: b@.accept + names(v@),
            ..b@
        }),
{
    let mut r = b;
    let mut i: usize = 0;
    while i < v.len()
        invariant
            i <= v@.len(),
            r@ == (BuilderModel {
                states: b@.states + names(v@).take(i as int),
                accept: b@.accept + names(v@).take(i as int),
                ..b@
            }),
        decreases v@.len() - i,
    {
        assert(names(v@).take(i + 1) =~= names(v@).take(i as int).push(v@[i as int]@));
        assert(b@.states + names(v@).take(i + 1) =~= (b@.states + names(v@).take(i as int)).push(v@[i as int]@));
        assert(b@.accept + names(v@).take(i + 1) =~= (b@.accept + names(v@).take(i as int)).push(v@[i as int]@));
        r = r.accept_state(v[i].as_str());
        i = i + 1;
    }
    assert(names(v@).take(v@.len() as int) =~= names(v@));
    r
}

fn add_rule_states(b: TMBuilder, rules: &Vec<Rule>) -> (r: TMBuilder)
    ensures
        r@ == (BuilderModel { states: b@.states + rule_states(rule_models(rules@)), ..b@ }),
{
    let ghost rs = rule_models(rules@);
    let mut r = b;
    let mut i: usize = 0;
    while i < rules.len()
        invariant
            i <= rules@.len(),
            rs == rule_models(rules@),
            r@ == (BuilderModel { states: b@.states + rule_states(rs.take(i as int)), ..b@ }),
        decreases rules@.len() - i,
    {
        assert(rs.take(i + 1).drop_last() =~= rs.take(i as int));
        assert(rs.take(i + 1).last() == rules@[i as int]@);
        let ghost prev = rule_states(rs.take(i as int));
        assert(b@.states + rule_states(rs.take(i + 1)) =~= (b@.states + prev).push(rules@[i as int]@.from).push(rules@[i as int]@.to));
        r = r.state(rules[i].from.as_str());
        r = r.state(rules[i].to.as_str());
        i = i + 1;
    }
    assert(rs.take(rules@.len() as int) =~= rs);
    r
}

fn add_syms(b: TMBuilder, v: &Vec<char>) -> (r: TMBuilder)
    ensures
        r@ == (BuilderModel { syms: b@.syms + v@, tape_syms: b@.tape_syms + v@, ..b@ }),
{
    let mut r = b;
    let mut i: usize = 0;
    while i < v.len()
        invariant
            i <= v@.len(),
            r@ == (BuilderModel {
                syms: b@.syms + v@.take(i as int),
                tape_syms: b@.tape_syms + v@.take(i as int),
                ..b@
            }),
        decreases v@.len() - i,
    {
        assert(b@.syms + v@.take(i + 1) =~= (b@.syms + v@.take(i as int)).push(v@[i as int]));
        assert(b@.tape_syms + v@.take(i + 1) =~= (b@.tape_syms + v@.take(i as int)).push(v@[i as int]));
        r = r.sym(v[i]);
        i = i + 1;
    }
    assert(v@.take(v@.len() as int) =~= v@);
    r
}

fn add_tape_syms(b: TMBuilder, v: &Vec<char>) -> (r: TMBuilder)
    ensures
        r@ == (BuilderModel { tape_syms: b@.tape_syms + v@, ..b@ }),
{
    let mut r = b;
    let mut i: usize = 0;
    while i < v.len()
        invariant
            i <= v@.len(),
            r@ == (BuilderModel { tape_syms: b@.tape_syms + v@.take(i as int), ..b@ }),
        decreases v@.len() - i,
    {
        assert(b@.tape_syms + v@.take(i + 1) =~= (b@.tape_syms + v@.take(i as int)).push(v@[i as int]));
        r = r.tape_sym(v[i]);
        i = i + 1;
    }
    assert(v@.take(v@.len() as int) =~= v@);
    r
}

fn add_rule_syms(b: TMBuilder, rules: &Vec<Rule>) -> (r: TMBuilder)
    ensures
        r@ == (BuilderModel { tape_syms: b@.tape_syms + rule_syms(rule_models(rules@)), ..b@ }),
{
    let ghost rs = rule_models(rules@);
    let mut r = b;
    let mut i: usize = 0;
    while i < rules.len()
        invariant
            i <= rules@.len(),
            rs == rule_models(rules@),
            r@ == (BuilderModel { tape_syms: b@.tape_syms + rule_syms(rs.take(i as int)), ..b@ }),
        decreases rules@.len() - i,
    {
        assert(rs.take(i + 1).drop_last() =~= rs.take(i as int));
        assert(rs.take(i + 1).last() == rules@[i as int]@);
        let ghost prev = rule_syms(rs.take(i as int));
        assert(b@.tape_syms + rule_syms(rs.take(i + 1)) =~= (b@.tape_syms + prev).push(rules@[i as int]@.read).push(rules@[i as int]@.write));
        r = r.tape_sym(rules[i].read);
        r = r.tape_sym(rules[i].write);
        i = i + 1;
    }
    assert(rs.take(rules@.len() as int) =~= rs);
    r
}

fn add_rules(b: TMBuilder, rules: &Vec<Rule>, dirs: &Vec<HeadDirection>) -> (r: TMBuilder)
    requires
        dirs@.len() == rules@.len(),
        forall|i: int| 0 <= i < dirs@.len() ==> dirs@[i] == dir_of(#[trigger] rules@[i]@.dir),
    ensures
        r@ == (BuilderModel {
            items: b@.items + rule_models(rules@).map_values(|x: RuleModel| rule_item(x)),
            ..b@
        }),
{
    let ghost all = rule_models(rules@).map_values(|x: RuleModel| rule_item(x));
    let mut r = b;
    let mut i: usize = 0;
    while i < rules.len()
        invariant
            i <= rules@.len(),
            dirs@.len() == rules@.len(),
            forall|i: int| 0 <= i < dirs@.len() ==> dirs@[i] == dir_of(#[trigger] rules@[i]@.dir),
            all == rule_models(rules@).map_values(|x: RuleModel| rule_item(x)),
            r@ == (BuilderModel { items: b@.items + all.take(i as int), ..b@ }),
        decreases rules@.len() - i,
    {
        let it = TransferFnItem::new().from(rules[i].from.as_str(), rules[i].read).to(
            rules[i].to.as_str(),
            Some(rules[i].write),
            dirs[i],
        );
        assert(it@ == all[i as int]);
        assert(b@.items + all.take(i + 1) =~= (b@.items + all.take(i as int)).push(all[i as int]));
        r = r.transfer_fn(it);
        i = i + 1;
    }
    assert(all.take(rules@.len() as int) =~= all);
    r
}

/// The number of line breaks in `s`.
pub open spec fn newlines(s: Seq<char>) -> nat
    decreases s.len(),
{
    if s.len() == 0 {
        0
    } else {
        newlines(s.drop_last()) + if s.last() == '\n' {
            1nat
        } else {
            0nat
        }
    }
}

/// Where the line that holds position `p` starts.
pub open spec fn line_start(s: Seq<char>, p: int) -> int
    decreases p,
{
    if p <= 0 {
        0
    } else if s[p - 1] == '\n' {
        p
    } else {
        line_start(s, p - 1)
    }
}

/// Where a text departs from the grammar: the position in characters, and
/// the line and column of it, both counted from zero.
#[derive(Debug, Clone, Copy, PartialEq, Eq, Structural)]
pub struct ParseError {
    pub pos: usize,
    pub line: usize,
    pub column: usize,
}

/// Why a definition was refused: the text does not follow the grammar, or
/// it does and describes no valid machine.
#[derive(Debug)]
pub enum Error {
    Parse(ParseError),
    Semantic(String),
}

/// The message for a definition that follows the grammar but describes no
/// valid machine, if it does not.
pub open spec fn semantic_error(d: DefModel) -> Option<Seq<char>> {
    match dir_error(d.rules) {
        Some(m) => Some(m),
        None => def_builder(d).build_error(),
    }
}

fn location(s: &Vec<char>, p: usize) -> (r: ParseError)
    requires
        p <= s@.len(),
    ensures
        r.pos == p,
        r.line == newlines(s@.take(p as int)),
        r.column == p - line_start(s@, p as int),
{
    let mut line: usize = 0;
    let mut start: usize = 0;
    let mut i: usize = 0;
    while i < p
        invariant
            i <= p <= s@.len(),
            line <= i,
            start <= i,
            line == newlines(s@.take(i as int)),
            start == line_start(s@, i as int),
        decreases p - i,
    {
        assert(s@.take(i + 1).drop_last() =~= s@.take(i as int));
        if s[i] == '\n' {
            line = line + 1;
            start = i + 1;
        }
        i = i + 1;
    }
    ParseError { pos: p, line, column: p - start }
}

/// Reads a machine from its definition. A text that does not follow the
/// grammar gives the place where it departs from it; one that does gives
/// the message of the first rule with a direction other than `L`, `R`,
/// `S`, or the builder's message for an invalid machine; else the machine
/// that the definition describes, with the states of the rules where no
/// state set is given, the symbols of the rules where no tape symbols are
/// given, the first rule's source state where no start state is given, and
/// `B` where no empty symbol is given.
pub fn parse(content: &str) -> (r: Result<TM, Error>)
    ensures
        match parse_def(content@) {
            Err(p) => r matches Err(Error::Parse(e)) && e.pos == p && e.line == newlines(
                content@.take(p),
            ) && e.column == p - line_start(content@, p),
            Ok(d) => match semantic_error(d) {
                Some(msg) => r matches Err(Error::Semantic(m)) && m@ == msg,
                None => r matches Ok(m) && m@.built_from(def_builder(d)),
            },
        },
{
    let s = str_chars(content);
    let d = match parse_def_exec(&s) {
        Ok(d) => d,
        Err(p) => return Err(Error::Parse(location(&s, p))),
    };
    let dirs = match check_dirs(&d.rules) {
        Ok(ds) => ds,
        Err(e) => return Err(Error::Semantic(e)),
    };
    let start: String = match &d.start {
        Some(x) => x.clone(),
        None => if d.rules.len() > 0 {
            d.rules[0].from.clone()
        } else {
            String::from_str("q0")
        },
    };
    let empty = match d.empty {
        Some(c) => c,
        None => DEFAULT_EMPTY,
    };
    let mut b = TMBuilder::new();
    b = match &d.states {
        Some(v) => add_states(b, v),
        None => add_rule_states(b, &d.rules),
    };
    b = add_syms(b, &d.syms);
    b = match &d.tape_syms {
        Some(v) => add_tape_syms(b, v),
        None => add_rule_syms(b, &d.rules),
    };
    b = b.start_state(start.as_str());
    b = add_accepts(b, &d.finals);
    b = b.empty_sym(empty);
    b = add_rules(b, &d.rules, &dirs);
    proof {
        let want = def_builder(d@);
        assert(b@.states =~= want.states);
        assert(b@.tape_syms =~= want.tape_syms);
        assert(b@.items =~= want.items);
        assert(b@ == want);
    }
    match b.build() {
        Ok(m) => Ok(m),
        Err(e) => Err(Error::Semantic(e)),
    }
}

/// A machine read from a text and a machine built from a builder that
/// declares what the text declares behave alike: the same states, start
/// state, accept states and empty symbol, and the same transition for every
/// state and symbol, states read by name.
pub proof fn lemma_parsed_matches_built(
    text: Seq<char>,
    b: BuilderModel,
    parsed: MachineModel,
    built: MachineModel,
)
    requires
        parse_def(text) is Ok,
        same_declarations(def_builder(parse_def(text)->Ok_0), b),
        parsed.built_from(def_builder(parse_def(text)->Ok_0)),
        built.built_from(b),
    ensures
        same_behavior(parsed, built),
{
    lemma_same_declarations_same_behavior(def_builder(parse_def(text)->Ok_0), b, parsed, built);
}

} // verus!
