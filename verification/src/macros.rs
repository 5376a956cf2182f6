//! What the attributes on tasks and on the entry point mean.
//!
//! `#[rivet::task(priority = 1, stack = 256)]` stands on an `async fn` without
//! parameters. This module reads the attribute and decides whether it is
//! allowed where it stands, what the task's declaration holds and what the
//! items around it are called. Splitting source text into tokens and parsing a
//! function are the `proc-macro2` and `syn` crates' work.
pub mod nesting;

use crate::macros::nesting::{is_shallow, shallow};
use crate::text::{dec, lemma_dec_read, lit, number_of, put_bytes, put_str};
use proc_macro2::Delimiter::Brace;
use proc_macro2::Spacing::Joint;
use proc_macro2::TokenStream;
use proc_macro2::TokenTree::{Group, Ident, Literal, Punct};
use vstd::prelude::*;
use vstd::utf8::encode_utf8;

verus! {

/// Bytes that are reserved for a task's future unless the attribute says
/// otherwise.
pub const DEFAULT_STACK: usize = 512;

/// A token of source text.
pub enum Token {
    /// An identifier or keyword.
    Word(Vec<u8>),
    /// A punctuation character, and whether another follows directly.
    Mark {
        /// The character.
        ch: char,
        /// Another one follows directly.
        joint: bool,
    },
    /// A literal.
    Literal(String),
    /// An opening bracket, and whether it is a curly one.
    Open {
        /// It is a curly one.
        curly: bool,
    },
    /// A closing bracket of any kind, or the end of the text.
    Close,
}

/// A token, with integer literals told apart.
pub enum Lexeme {
    /// An identifier or keyword.
    Word(Vec<u8>),
    /// A punctuation character, and whether another follows directly.
    Mark {
        /// The character.
        ch: char,
        /// Another one follows directly.
        joint: bool,
    },
    /// An integer literal, as decimal digits.
    Int(Vec<u8>),
    /// Anything else.
    Other,
}

/// What a token is.
pub enum TokenView {
    Word(Seq<u8>),
    Mark(char, bool),
    Literal(Seq<char>),
    Open(bool),
    Close,
}

/// What a lexeme is.
pub enum LexemeView {
    Word(Seq<u8>),
    Mark(char, bool),
    Int(Seq<u8>),
    Other,
}

impl Token {
    /// What the token is.
    pub open spec fn what(&self) -> TokenView {
        match self {
            Token::Word(w) => TokenView::Word(w@),
            Token::Mark { ch, joint } => TokenView::Mark(*ch, *joint),
            Token::Literal(s) => TokenView::Literal(s@),
            Token::Open { curly } => TokenView::Open(*curly),
            Token::Close => TokenView::Close,
        }
    }
}

impl Lexeme {
    /// What the lexeme is.
    pub open spec fn what(&self) -> LexemeView {
        match self {
            Lexeme::Word(w) => LexemeView::Word(w@),
            Lexeme::Mark { ch, joint } => LexemeView::Mark(*ch, *joint),
            Lexeme::Int(d) => LexemeView::Int(d@),
            Lexeme::Other => LexemeView::Other,
        }
    }
}

/// What tokens are, in order.
pub open spec fn all_tokens(v: Seq<Token>) -> Seq<TokenView> {
    Seq::new(v.len(), |i: int| v[i].what())
}

/// What lexemes are, in order.
pub open spec fn all_lexemes(v: Seq<Lexeme>) -> Seq<LexemeView> {
    Seq::new(v.len(), |i: int| v[i].what())
}

/// What matters of an annotated function.
pub struct ItemFacts {
    /// Its name.
    pub name: Vec<u8>,
    /// It is an `async fn`.
    pub is_async: bool,
    /// Its parameters.
    pub inputs: usize,
}

/// The tokens of source text; nothing if it cannot be split.
pub uninterp spec fn tokens_of(src: Seq<char>) -> Option<Seq<TokenView>>;

/// The decimal digits of an integer literal; nothing if the text is not one.
pub uninterp spec fn int_digits(text: Seq<char>) -> Option<Seq<u8>>;

/// Name, asyncness and number of parameters of the function in source text;
/// nothing if the text is not a function.
pub uninterp spec fn function_of(src: Seq<char>) -> Option<(Seq<u8>, bool, nat)>;

/// Split source text into tokens.
///
/// Trusted: `proc_macro2::TokenStream::from_str`, and an iteration over the
/// stream and the streams of its groups. The crate is built without its
/// `proc-macro` feature, so that the text is read by its own lexer. The contract
/// claims that the tokens depend on the text alone: a group becomes an opening
/// bracket, its tokens and a closing bracket, every other token tree becomes one
/// token, and the end of the text becomes a closing bracket.
#[verifier::external_body]
fn tokenize(src: &str) -> (r: Option<Vec<Token>>)
    ensures
        (match r {
            Some(v) => Some(all_tokens(v@)),
            None => None,
        }) == tokens_of(src@),
        r matches Some(v) ==> v@.len() > 0 && v@.last() is Close,
{
    let mut levels = vec![src.parse::<TokenStream>().ok()?.into_iter()];
    let mut all = Vec::new();
    while let Some(level) = levels.last_mut() {
        all.push(match level.next() {
            Some(Ident(i)) => Token::Word(i.to_string().into_bytes()),
            Some(Punct(p)) => Token::Mark { ch: p.as_char(), joint: p.spacing() == Joint },
            Some(Literal(l)) => Token::Literal(l.to_string()),
            Some(Group(g)) => {
                levels.push(g.stream().into_iter());
                Token::Open { curly: g.delimiter() == Brace }
            },
            None => { levels.pop(); Token::Close },
        });
    }
    Some(all)
}

/// Text without an opening bracket.
pub open spec fn bracketless(bytes: Seq<u8>) -> bool {
    forall|i: int|
        0 <= i < bytes.len() ==> (#[trigger] bytes[i]) != 40 && bytes[i] != 91 && bytes[i] != 123
}

/// The decimal digits of an integer literal. The text holds no opening bracket:
/// brackets are all that the parser would recurse into here.
///
/// Trusted: `syn::parse_str` for a `syn::LitInt`, and `base10_digits` of what
/// it yields. The contract claims that they depend on the text alone.
#[verifier::external_body]
fn parse_int(text: &String) -> (r: Option<Vec<u8>>)
    requires
        bracketless(encode_utf8(text@)),
    ensures
        (match r {
            Some(d) => Some(d@),
            None => None,
        }) == int_digits(text@),
{
    let literal = syn::parse_str::<syn::LitInt>(text).ok()?;
    Some(literal.base10_digits().as_bytes().to_vec())
}

/// Parse a function. Its tokens must not be nested too deeply: the parser
/// recurses into them, and so does taking down what it built.
///
/// Trusted: `syn::parse_str` for a `syn::ItemFn`, of which the name, the
/// asyncness and the number of parameters are kept. The contract claims that
/// they depend on the text alone.
#[verifier::external_body]
fn parse_function(src: &str) -> (r: Option<ItemFacts>)
    requires
        tokens_of(src@) is Some,
        shallow(tokens_of(src@)->0),
    ensures
        (match r {
            Some(f) => Some((f.name@, f.is_async, f.inputs as nat)),
            None => None,
        }) == function_of(src@),
{
    let item = syn::parse_str::<syn::ItemFn>(src).ok()?;
    let name = item.sig.ident.to_string().into_bytes();
    let is_async = item.sig.asyncness.is_some();
    Some(ItemFacts { name, is_async, inputs: item.sig.inputs.len() })
}

/// Why an attribute is refused.
#[derive(Debug, Clone, Copy, PartialEq, Eq, Structural)]
pub enum AttrError {
    /// It does not stand on a function.
    NotAFunction,
    /// A task is not an `async fn`.
    NotAsync,
    /// A task has parameters.
    HasParameters,
    /// The attribute is not a list of settings.
    Syntax,
    /// A number does not fit.
    BadNumber,
    /// There is no such setting.
    Unsupported,
    /// A task has no priority.
    NoPriority,
    /// The entry point's attribute takes no arguments.
    TakesNoArguments,
    /// The entry point has parameters.
    MainHasParameters,
    /// The function is nested too deeply.
    TooDeep,
}

/// What is said of a refused attribute, where the words are not the parser's.
pub open spec fn message_of(e: AttrError) -> Option<Seq<char>> {
    match e {
        AttrError::NotAsync => Some("#[rivet::task] requires an `async fn`"@),
        AttrError::HasParameters => Some(
            "#[rivet::task] functions currently take no parameters; use a `static` for shared state (peripherals, queues, etc.)"@,
        ),
        AttrError::Unsupported => Some(
            "unsupported #[rivet::task] attribute; expected `priority` or `stack`"@,
        ),
        AttrError::NoPriority => Some(
            "#[rivet::task] requires `priority = N`, e.g. #[rivet::task(priority = 1)]"@,
        ),
        AttrError::TakesNoArguments => Some("#[rivet::main] takes no arguments"@),
        AttrError::MainHasParameters => Some("#[rivet::main] functions take no parameters"@),
        _ => None,
    }
}

impl AttrError {
    /// What is said of a refused attribute, where the words are not the
    /// parser's.
    pub fn message(&self) -> (r: Option<&'static str>)
        ensures
            (match r {
                Some(s) => Some(s@),
                None => None,
            }) == message_of(*self),
    {
        match self {
            AttrError::NotAsync => Some("#[rivet::task] requires an `async fn`"),
            AttrError::HasParameters => Some(
                "#[rivet::task] functions currently take no parameters; use a `static` for shared state (peripherals, queues, etc.)",
            ),
            AttrError::Unsupported => Some(
                "unsupported #[rivet::task] attribute; expected `priority` or `stack`",
            ),
            AttrError::NoPriority => Some(
                "#[rivet::task] requires `priority = N`, e.g. #[rivet::task(priority = 1)]",
            ),
            AttrError::TakesNoArguments => Some("#[rivet::main] takes no arguments"),
            AttrError::MainHasParameters => Some("#[rivet::main] functions take no parameters"),
            _ => None,
        }
    }
}

/// A decimal digit.
pub open spec fn is_digit(b: u8) -> bool {
    48 <= b <= 57
}

/// The number that digits stand for.
pub open spec fn number(d: Seq<u8>) -> nat
    decreases d.len(),
{
    if d.len() == 0 {
        0
    } else {
        number(d.drop_last()) * 10 + (d.last() - 48) as nat
    }
}

/// Digits that stand for a number up to `max`.
pub open spec fn fits(d: Seq<u8>, max: nat) -> bool {
    &&& d.len() > 0
    &&& forall|i: int| 0 <= i < d.len() ==> is_digit(#[trigger] d[i])
    &&& number(d) <= max
}

proof fn lemma_number_grows(d: Seq<u8>, k: int)
    requires
        0 <= k <= d.len(),
        forall|i: int| 0 <= i < d.len() ==> is_digit(#[trigger] d[i]),
    ensures
        number(d.take(k)) <= number(d),
    decreases d.len() - k,
{
    if k == d.len() {
        assert(d.take(k) =~= d);
    } else {
        lemma_number_grows(d, k + 1);
        assert(d.take(k + 1).drop_last() =~= d.take(k));
        assert(d.take(k + 1).last() == d[k]);
    }
}

/// Read decimal digits.
fn read_number(d: &Vec<u8>, max: u64) -> (r: Option<u64>)
    ensures
        r == (if fits(d@, max as nat) {
            Some(number(d@) as u64)
        } else {
            None
        }),
{
    let n: usize = d.len();
    if n == 0 {
        return None;
    }
    let mut i: usize = 0;
    while i < n
        invariant
            i <= n,
            n == d@.len(),
            forall|j: int| 0 <= j < i ==> is_digit(#[trigger] d@[j]),
        decreases n - i,
    {
        let b: u8 = d[i];
        if b < 48 || b > 57 {
            assert(!is_digit(d@[i as int]));
            return None;
        }
        i = i + 1;
    }
    let mut value: u64 = 0;
    let mut k: usize = 0;
    assert(d@.take(0) =~= Seq::<u8>::empty());
    while k < n
        invariant
            k <= n,
            n == d@.len(),
            forall|j: int| 0 <= j < n ==> is_digit(#[trigger] d@[j]),
            value == number(d@.take(k as int)),
            value <= max,
        decreases n - k,
    {
        let digit: u64 = (d[k] - 48) as u64;
        proof {
            assert(is_digit(d@[k as int]));
            assert(d@.take(k + 1).drop_last() =~= d@.take(k as int));
            lemma_number_grows(d@, k + 1);
        }
        let next: u128 = value as u128 * 10 + digit as u128;
        if next > max as u128 {
            return None;
        }
        value = next as u64;
        k = k + 1;
    }
    assert(d@.take(n as int) =~= d@);
    Some(value)
}

/// The settings of a task's attribute.
#[derive(Debug, Clone, Copy, PartialEq, Eq, Structural)]
pub struct Settings {
    /// The priority; zero until it is set.
    pub priority: u8,
    /// Bytes that are reserved for the future.
    pub stack: usize,
    /// The priority was set.
    pub saw_priority: bool,
}

/// The settings of an attribute that says nothing.
pub open spec fn no_settings() -> Settings {
    Settings { priority: 0, stack: DEFAULT_STACK, saw_priority: false }
}

/// `::` stands at `i`.
pub open spec fn colons_at(l: Seq<LexemeView>, i: int) -> bool {
    &&& 0 <= i
    &&& i + 1 < l.len()
    &&& l[i] == LexemeView::Mark(':', true)
    &&& l[i + 1] is Mark
    &&& l[i + 1]->Mark_0 == ':'
}

/// A word stands at `i`.
pub open spec fn word_at(l: Seq<LexemeView>, i: int) -> bool {
    0 <= i < l.len() && l[i] is Word
}

/// Where the path ends whose segment before `i` was read; nothing if it does
/// not end well.
pub open spec fn path_end(l: Seq<LexemeView>, i: int) -> Option<int>
    decreases l.len() - i,
{
    if colons_at(l, i) {
        if word_at(l, i + 2) {
            path_end(l, i + 3)
        } else {
            None
        }
    } else {
        Some(i)
    }
}

/// The path at `i`: where it ends, and its name if it is a single word.
pub open spec fn path_at(l: Seq<LexemeView>, i: int) -> Option<(int, Option<Seq<u8>>)> {
    let start = if colons_at(l, i) {
        i + 2
    } else {
        i
    };
    if !word_at(l, start) {
        None
    } else {
        match path_end(l, start + 1) {
            None => None,
            Some(end) => Some(
                (
                    end,
                    if start == i && end == start + 1 {
                        Some(l[start]->Word_0)
                    } else {
                        None
                    },
                ),
            ),
        }
    }
}

/// The character `ch` stands at `i`.
pub open spec fn mark_at(l: Seq<LexemeView>, i: int, ch: char) -> bool {
    0 <= i < l.len() && l[i] is Mark && l[i]->Mark_0 == ch
}

/// The value at `i`, an `=` and an integer up to `max`: where it ends, and the
/// number. A negative integer is one that does not fit.
pub open spec fn value_at(l: Seq<LexemeView>, i: int, max: nat) -> Result<(int, nat), AttrError> {
    if !mark_at(l, i, '=') {
        Err(AttrError::Syntax)
    } else if i + 1 < l.len() && l[i + 1] is Int {
        if fits(l[i + 1]->Int_0, max) {
            Ok((i + 2, number(l[i + 1]->Int_0)))
        } else {
            Err(AttrError::BadNumber)
        }
    } else if mark_at(l, i + 1, '-') && i + 2 < l.len() && l[i + 2] is Int {
        Err(AttrError::BadNumber)
    } else {
        Err(AttrError::Syntax)
    }
}

/// One setting at `i`: where it ends, and the settings with it. A setting that
/// is given twice counts the second time.
pub open spec fn setting_at(l: Seq<LexemeView>, i: int, s: Settings) -> Result<
    (int, Settings),
    AttrError,
> {
    match path_at(l, i) {
        None => Err(AttrError::Syntax),
        Some((end, name)) => if name == Some(lit("priority")) {
            match value_at(l, end, u8::MAX as nat) {
                Ok((next, n)) => Ok(
                    (next, Settings { priority: n as u8, saw_priority: true, ..s }),
                ),
                Err(e) => Err(e),
            }
        } else if name == Some(lit("stack")) {
            match value_at(l, end, usize::MAX as nat) {
                Ok((next, n)) => Ok((next, Settings { stack: n as usize, ..s })),
                Err(e) => Err(e),
            }
        } else {
            Err(AttrError::Unsupported)
        },
    }
}

/// The settings from `i` on: settings with commas between them, and perhaps
/// one at the end. The first mistake counts.
pub open spec fn settings_from(l: Seq<LexemeView>, i: int, s: Settings) -> Result<
    Settings,
    AttrError,
>
    decreases l.len() - i,
{
    if i >= l.len() {
        Ok(s)
    } else {
        match setting_at(l, i, s) {
            Err(e) => Err(e),
            Ok((next, t)) => if next >= l.len() {
                Ok(t)
            } else if next >= i && mark_at(l, next, ',') {
                settings_from(l, next + 1, t)
            } else {
                Err(AttrError::Syntax)
            },
        }
    }
}

fn colons(l: &Vec<Lexeme>, i: usize) -> (r: bool)
    requires
        i <= l@.len(),
    ensures
        r == colons_at(all_lexemes(l@), i as int),
{
    if l.len() - i < 2 {
        return false;
    }
    match (&l[i], &l[i + 1]) {
        (Lexeme::Mark { ch, joint }, Lexeme::Mark { ch: second, .. }) => *ch == ':' && *joint
            && *second == ':',
        _ => false,
    }
}

fn is_word(l: &Vec<Lexeme>, i: usize) -> (r: bool)
    ensures
        r == word_at(all_lexemes(l@), i as int),
{
    if i >= l.len() {
        return false;
    }
    match &l[i] {
        Lexeme::Word(_) => true,
        _ => false,
    }
}

fn is_mark(l: &Vec<Lexeme>, i: usize, want: char) -> (r: bool)
    ensures
        r == mark_at(all_lexemes(l@), i as int, want),
{
    if i >= l.len() {
        return false;
    }
    match &l[i] {
        Lexeme::Mark { ch, .. } => *ch == want,
        _ => false,
    }
}

pub(crate) fn same_bytes(a: &Vec<u8>, b: &str) -> (r: bool)
    ensures
        r == (a@ == lit(b)),
{
    let other = b.as_bytes();
    if a.len() != other.len() {
        return false;
    }
    let n: usize = a.len();
    let mut i: usize = 0;
    while i < n
        invariant
            i <= n,
            n == a@.len(),
            other@ == lit(b),
            n == other@.len(),
            forall|j: int| 0 <= j < i ==> #[trigger] a@[j] == other@[j],
        decreases n - i,
    {
        if a[i] != other[i] {
            assert(a@[i as int] != other@[i as int]);
            return false;
        }
        i = i + 1;
    }
    assert(a@ =~= other@);
    true
}

/// Which setting a path names.
enum Setting {
    Priority,
    Stack,
    Unknown,
}

/// Read the path at `i`.
fn read_path(l: &Vec<Lexeme>, i: usize) -> (r: Option<(usize, Setting)>)
    requires
        i < l@.len(),
    ensures
        match path_at(all_lexemes(l@), i as int) {
            None => r is None,
            Some((end, name)) => r matches Some((e, which)) && e == end && i < e <= l@.len() && (
            which is Priority == (name == Some(lit("priority")))) && (which is Stack == (name
                != Some(lit("priority")) && name == Some(lit("stack")))),
        },
{
    let ghost v = all_lexemes(l@);
    let n: usize = l.len();
    let rooted = colons(l, i);
    let start: usize = if rooted {
        i + 2
    } else {
        i
    };
    if !is_word(l, start) {
        return None;
    }
    let mut end: usize = start + 1;
    while colons(l, end)
        invariant
            v == all_lexemes(l@),
            n == l@.len(),
            i < n,
            rooted == colons_at(v, i as int),
            start == (if rooted {
                i + 2
            } else {
                i as int
            }),
            word_at(v, start as int),
            start < end <= n,
            path_end(v, start + 1) == path_end(v, end as int),
        decreases n - end,
    {
        if !is_word(l, end + 2) {
            return None;
        }
        end = end + 3;
    }
    if rooted || end != start + 1 {
        return Some((end, Setting::Unknown));
    }
    match &l[start] {
        Lexeme::Word(w) => {
            assert(v[start as int] == LexemeView::Word(w@));
            if same_bytes(w, "priority") {
                Some((end, Setting::Priority))
            } else if same_bytes(w, "stack") {
                Some((end, Setting::Stack))
            } else {
                Some((end, Setting::Unknown))
            }
        },
        _ => None,
    }
}

/// Read the value at `i`.
fn read_value(l: &Vec<Lexeme>, i: usize, max: u64) -> (r: Result<(usize, u64), AttrError>)
    requires
        i <= l@.len(),
    ensures
        match value_at(all_lexemes(l@), i as int, max as nat) {
            Ok((next, n)) => r matches Ok((e, m)) && e == next && m == n && i < e <= l@.len(),
            Err(e) => r == Err::<(usize, u64), AttrError>(e),
        },
{
    let ghost v = all_lexemes(l@);
    let n: usize = l.len();
    if !is_mark(l, i, '=') {
        return Err(AttrError::Syntax);
    }
    if i + 1 < n {
        if let Lexeme::Int(d) = &l[i + 1] {
            assert(v[i + 1] == LexemeView::Int(d@));
            return match read_number(d, max) {
                Some(n) => Ok((i + 2, n)),
                None => Err(AttrError::BadNumber),
            };
        }
        if is_mark(l, i + 1, '-') {
            if n - i > 2 {
                if let Lexeme::Int(_) = &l[i + 2] {
                    return Err(AttrError::BadNumber);
                }
            }
        }
    }
    Err(AttrError::Syntax)
}

/// Read the settings of a task's attribute.
pub fn parse_settings(l: &Vec<Lexeme>) -> (r: Result<Settings, AttrError>)
    ensures
        r == settings_from(all_lexemes(l@), 0, no_settings()),
{
    let ghost v = all_lexemes(l@);
    let mut s = Settings { priority: 0, stack: DEFAULT_STACK, saw_priority: false };
    let mut i: usize = 0;
    while i < l.len()
        invariant
            v == all_lexemes(l@),
            i <= l@.len(),
            settings_from(v, 0, no_settings()) == settings_from(v, i as int, s),
        decreases l@.len() - i,
    {
        let (end, which) = match read_path(l, i) {
            Some(p) => p,
            None => return Err(AttrError::Syntax),
        };
        let next: usize = match which {
            Setting::Priority => {
                match read_value(l, end, 255) {
                    Ok((next, n)) => {
                        s = Settings { priority: n as u8, saw_priority: true, ..s };
                        next
                    },
                    Err(e) => return Err(e),
                }
            },
            Setting::Stack => {
                match read_value(l, end, usize::MAX as u64) {
                    Ok((next, n)) => {
                        s = Settings { stack: n as usize, ..s };
                        next
                    },
                    Err(e) => return Err(e),
                }
            },
            Setting::Unknown => return Err(AttrError::Unsupported),
        };
        if next >= l.len() {
            return Ok(s);
        }
        if !is_mark(l, next, ',') {
            return Err(AttrError::Syntax);
        }
        i = next + 1;
    }
    Ok(s)
}

/// A task's declaration: its settings, and the names of the items around it.
pub struct TaskDecl {
    /// Priority.
    pub priority: u8,
    /// Bytes that are reserved for the future.
    pub stack_size: usize,
    /// The function that polls the future.
    pub poll_fn: Vec<u8>,
    /// The function that tells whether the future has completed.
    pub completed_fn: Vec<u8>,
    /// The future's storage.
    pub cell: Vec<u8>,
    /// The registration.
    pub reg: Vec<u8>,
}

/// A name without the mark of a raw identifier.
pub open spec fn plain_name(name: Seq<u8>) -> Seq<u8> {
    if name.len() >= 2 && name[0] == 114 && name[1] == 35 {
        name.skip(2)
    } else {
        name
    }
}

/// What is wrong with an annotated function, if anything.
pub open spec fn function_error(is_async: bool, inputs: nat) -> Option<AttrError> {
    if !is_async {
        Some(AttrError::NotAsync)
    } else if inputs != 0 {
        Some(AttrError::HasParameters)
    } else {
        None
    }
}

/// The declaration of a task.
pub open spec fn declares(d: &TaskDecl, s: Settings, name: Seq<u8>) -> bool {
    &&& d.priority == s.priority
    &&& d.stack_size == s.stack
    &&& d.poll_fn@ == lit("__rivet_poll_") + plain_name(name)
    &&& d.completed_fn@ == lit("__rivet_completed_") + plain_name(name)
    &&& d.cell@ == lit("__RIVET_CELL_") + plain_name(name)
    &&& d.reg@ == lit("__RIVET_REG_") + plain_name(name)
}

/// What is said of a task with the given attribute on the given function.
pub open spec fn declared(
    name: Seq<u8>,
    is_async: bool,
    inputs: nat,
    attr: Seq<LexemeView>,
    r: Result<TaskDecl, AttrError>,
) -> bool {
    match function_error(is_async, inputs) {
        Some(e) => r == Err::<TaskDecl, AttrError>(e),
        None => match settings_from(attr, 0, no_settings()) {
            Err(e) => r == Err::<TaskDecl, AttrError>(e),
            Ok(s) => if !s.saw_priority {
                r == Err::<TaskDecl, AttrError>(AttrError::NoPriority)
            } else {
                r matches Ok(d) && declares(&d, s, name)
            },
        },
    }
}

fn prefixed(prefix: &str, name: &Vec<u8>) -> (r: Vec<u8>)
    ensures
        r@ == lit(prefix) + plain_name(name@),
{
    let mut out: Vec<u8> = Vec::new();
    put_str(&mut out, prefix);
    assert(out@ =~= lit(prefix));
    if name.len() >= 2 && name[0] == 114 && name[1] == 35 {
        let rest = vstd::slice::slice_subrange(name.as_slice(), 2, name.len());
        assert(rest@ =~= name@.skip(2));
        put_bytes(&mut out, rest);
    } else {
        put_bytes(&mut out, name);
    }
    out
}

/// Whether a task's attribute may stand on a function.
fn check_function(f: &ItemFacts) -> (r: Result<(), AttrError>)
    ensures
        r == (match function_error(f.is_async, f.inputs as nat) {
            Some(e) => Err(e),
            None => Ok(()),
        }),
{
    if !f.is_async {
        return Err(AttrError::NotAsync);
    }
    if f.inputs != 0 {
        return Err(AttrError::HasParameters);
    }
    Ok(())
}

/// Declare a task: the attribute `attr` on the function `f`.
pub fn declare(f: &ItemFacts, attr: &Vec<Lexeme>) -> (r: Result<TaskDecl, AttrError>)
    ensures
        declared(f.name@, f.is_async, f.inputs as nat, all_lexemes(attr@), r),
{
    match check_function(f) {
        Ok(()) => {},
        Err(e) => return Err(e),
    }
    let s = match parse_settings(attr) {
        Ok(s) => s,
        Err(e) => return Err(e),
    };
    if !s.saw_priority {
        return Err(AttrError::NoPriority);
    }
    Ok(
        TaskDecl {
            priority: s.priority,
            stack_size: s.stack,
            poll_fn: prefixed("__rivet_poll_", &f.name),
            completed_fn: prefixed("__rivet_completed_", &f.name),
            cell: prefixed("__RIVET_CELL_", &f.name),
            reg: prefixed("__RIVET_REG_", &f.name),
        },
    )
}

/// A token with integer literals told apart. A literal with a bracket in it is
/// a string or a character.
pub open spec fn told_apart(t: TokenView) -> LexemeView {
    match t {
        TokenView::Word(w) => LexemeView::Word(w),
        TokenView::Mark(ch, joint) => LexemeView::Mark(ch, joint),
        TokenView::Literal(text) => if !bracketless(encode_utf8(text)) {
            LexemeView::Other
        } else {
            match int_digits(text) {
                Some(d) => LexemeView::Int(d),
                None => LexemeView::Other,
            }
        },
        TokenView::Open(_) | TokenView::Close => LexemeView::Other,
    }
}

/// Whether text has no opening bracket.
fn is_bracketless(text: &String) -> (r: bool)
    ensures
        r == bracketless(encode_utf8(text@)),
{
    let bytes = text.as_str().as_bytes();
    let n: usize = bytes.len();
    let mut i: usize = 0;
    while i < n
        invariant
            i <= n,
            n == bytes@.len(),
            bytes@ == encode_utf8(text@),
            forall|j: int|
                0 <= j < i ==> (#[trigger] bytes@[j]) != 40 && bytes@[j] != 91 && bytes@[j] != 123,
        decreases n - i,
    {
        let b: u8 = bytes[i];
        if b == 40 || b == 91 || b == 123 {
            assert(bytes@[i as int] == b);
            return false;
        }
        i = i + 1;
    }
    true
}

/// Tell integer literals apart. The end of the text is left out.
fn resolve(tokens: &Vec<Token>) -> (r: Vec<Lexeme>)
    requires
        tokens@.len() > 0,
    ensures
        all_lexemes(r@) == lexemes(all_tokens(tokens@)),
{
    let mut out: Vec<Lexeme> = Vec::new();
    let n: usize = tokens.len() - 1;
    let mut i: usize = 0;
    let ghost all = tokens@;
    while i < n
        invariant
            i <= n,
            n == all.len() - 1,
            tokens@ == all,
            out@.len() == i,
            forall|j: int| 0 <= j < i ==> (#[trigger] out@[j]).what() == told_apart(all[j].what()),
        decreases n - i,
    {
        let lexeme = match &tokens[i] {
            Token::Word(w) => {
                let mut copy: Vec<u8> = Vec::new();
                put_bytes(&mut copy, w);
                assert(copy@ =~= w@);
                Lexeme::Word(copy)
            },
            Token::Mark { ch, joint } => Lexeme::Mark { ch: *ch, joint: *joint },
            Token::Literal(text) => {
                if is_bracketless(text) {
                    match parse_int(text) {
                        Some(d) => Lexeme::Int(d),
                        None => Lexeme::Other,
                    }
                } else {
                    Lexeme::Other
                }
            },
            _ => Lexeme::Other,
        };
        assert(lexeme.what() == told_apart(all[i as int].what()));
        out.push(lexeme);
        i = i + 1;
    }
    assert(all_lexemes(out@) =~= lexemes(all_tokens(all)));
    out
}

/// The lexemes of an attribute with the given tokens, of which the last is the
/// end of the text.
pub open spec fn lexemes(t: Seq<TokenView>) -> Seq<LexemeView> {
    t.drop_last().map_values(|t: TokenView| told_apart(t))
}

/// The function in source text, or why it is refused.
pub open spec fn item_of(item: Seq<char>) -> Result<(Seq<u8>, bool, nat), AttrError> {
    match tokens_of(item) {
        None => Err(AttrError::NotAFunction),
        Some(t) => if !shallow(t) {
            Err(AttrError::TooDeep)
        } else {
            match function_of(item) {
                Some(f) => Ok(f),
                None => Err(AttrError::NotAFunction),
            }
        },
    }
}

/// Read the function in source text.
fn read_item(item: &str) -> (r: Result<ItemFacts, AttrError>)
    ensures
        match item_of(item@) {
            Ok((name, is_async, inputs)) => r matches Ok(f) && f.name@ == name && f.is_async
                == is_async && f.inputs == inputs,
            Err(e) => r == Err::<ItemFacts, AttrError>(e),
        },
{
    let tokens = match tokenize(item) {
        Some(t) => t,
        None => return Err(AttrError::NotAFunction),
    };
    if !is_shallow(&tokens) {
        return Err(AttrError::TooDeep);
    }
    match parse_function(item) {
        Some(f) => Ok(f),
        None => Err(AttrError::NotAFunction),
    }
}

/// Declare a task: the attribute with the text `attr` on the item with the text
/// `item`. What is wrong with the item comes before what is wrong with the
/// attribute.
pub fn task(attr: &str, item: &str) -> (r: Result<TaskDecl, AttrError>)
    ensures
        match item_of(item@) {
            Err(e) => r == Err::<TaskDecl, AttrError>(e),
            Ok((name, is_async, inputs)) => match function_error(is_async, inputs) {
                Some(e) => r == Err::<TaskDecl, AttrError>(e),
                None => match tokens_of(attr@) {
                    None => r == Err::<TaskDecl, AttrError>(AttrError::Syntax),
                    Some(t) => declared(name, is_async, inputs, lexemes(t), r),
                },
            },
        },
{
    let f = match read_item(item) {
        Ok(f) => f,
        Err(e) => return Err(e),
    };
    match check_function(&f) {
        Ok(()) => {},
        Err(e) => return Err(e),
    }
    let tokens = match tokenize(attr) {
        Some(t) => t,
        None => return Err(AttrError::Syntax),
    };
    declare(&f, &resolve(&tokens))
}

/// Whether the entry point's attribute, with the given number of arguments, may
/// stand on the given function.
pub fn check_entry(arguments: usize, f: Result<&ItemFacts, AttrError>) -> (r: Result<
    (),
    AttrError,
>)
    ensures
        r == (if arguments != 0 {
            Err(AttrError::TakesNoArguments)
        } else {
            match f {
                Err(e) => Err(e),
                Ok(f) => if f.inputs != 0 {
                    Err(AttrError::MainHasParameters)
                } else {
                    Ok(())
                },
            }
        }),
{
    if arguments != 0 {
        return Err(AttrError::TakesNoArguments);
    }
    match f {
        Err(e) => Err(e),
        Ok(f) => {
            if f.inputs != 0 {
                Err(AttrError::MainHasParameters)
            } else {
                Ok(())
            }
        },
    }
}

/// Check the entry point: the attribute with the text `attr` on the item with
/// the text `item`. The last token of the attribute is the end of its text.
pub fn entry(attr: &str, item: &str) -> (r: Result<(), AttrError>)
    ensures
        r == (match tokens_of(attr@) {
            None => Err(AttrError::Syntax),
            Some(t) => if t.len() != 1 {
                Err(AttrError::TakesNoArguments)
            } else {
                match item_of(item@) {
                    Err(e) => Err(e),
                    Ok((_, _, inputs)) => if inputs != 0 {
                        Err(AttrError::MainHasParameters)
                    } else {
                        Ok(())
                    },
                }
            },
        }),
{
    let tokens = match tokenize(attr) {
        Some(t) => t,
        None => return Err(AttrError::Syntax),
    };
    let arguments: usize = tokens.len() - 1;
    match read_item(item) {
        Ok(f) => check_entry(arguments, Ok(&f)),
        Err(e) => check_entry(arguments, Err(e)),
    }
}

proof fn lemma_number_read(d: Seq<u8>)
    requires
        forall|i: int| 0 <= i < d.len() ==> 48 <= #[trigger] d[i] <= 57,
    ensures
        number(d) == number_of(d, 10),
    decreases d.len(),
{
    if d.len() > 0 {
        lemma_number_read(d.drop_last());
        assert(48 <= d[d.len() - 1] <= 57);
    }
}

proof fn lemma_decimal_fits(n: nat, max: nat)
    ensures
        number(dec(n)) == n,
        fits(dec(n), max) == (n <= max),
{
    lemma_dec_read(n);
    lemma_number_read(dec(n));
}

proof fn lemma_settings_differ()
    ensures
        lit("priority") != lit("stack"),
{
    reveal_strlit("priority");
    reveal_strlit("stack");
    vstd::utf8::encode_utf8_decode_utf8("priority"@);
    vstd::utf8::encode_utf8_decode_utf8("stack"@);
    assert("priority"@.len() == 8 && "stack"@.len() == 5);
}

/// A priority and a stack that are given in decimal, with a comma between them,
/// are the ones that are read; a priority beyond 255 does not fit.
#[verifier::rlimit(60)]
pub proof fn law_settings_are_read(
    l: &Vec<Lexeme>,
    p: nat,
    s: usize,
    a: bool,
    b: bool,
    c: bool,
    r: Result<Settings, AttrError>,
)
    requires
        all_lexemes(l@) == seq![
            LexemeView::Word(lit("priority")),
            LexemeView::Mark('=', a),
            LexemeView::Int(dec(p)),
            LexemeView::Mark(',', b),
            LexemeView::Word(lit("stack")),
            LexemeView::Mark('=', c),
            LexemeView::Int(dec(s as nat)),
        ],
        call_ensures(parse_settings, (l,), r),
    ensures
        p <= 255 ==> r == Ok::<Settings, AttrError>(
            Settings { priority: p as u8, stack: s, saw_priority: true },
        ),
        p > 255 ==> r == Err::<Settings, AttrError>(AttrError::BadNumber),
{
    lemma_decimal_fits(p, 255);
    lemma_decimal_fits(s as nat, usize::MAX as nat);
    lemma_settings_differ();
    let v = all_lexemes(l@);
    reveal_with_fuel(settings_from, 3);
    assert(v.len() == 7);
    assert(!colons_at(v, 0));
    assert(!colons_at(v, 1));
    assert(path_end(v, 1) == Some(1int));
    assert(path_at(v, 0) == Some((1int, Some(lit("priority")))));
    assert(!colons_at(v, 4));
    assert(!colons_at(v, 5));
    assert(path_end(v, 5) == Some(5int));
    assert(path_at(v, 4) == Some((5int, Some(lit("stack")))));
}

/// A priority alone leaves 512 bytes for the future, and a comma may follow it.
pub proof fn law_stack_has_a_default(
    l: &Vec<Lexeme>,
    p: nat,
    a: bool,
    b: bool,
    r: Result<Settings, AttrError>,
)
    requires
        all_lexemes(l@) == seq![
            LexemeView::Word(lit("priority")),
            LexemeView::Mark('=', a),
            LexemeView::Int(dec(p)),
        ] || all_lexemes(l@) == seq![
            LexemeView::Word(lit("priority")),
            LexemeView::Mark('=', a),
            LexemeView::Int(dec(p)),
            LexemeView::Mark(',', b),
        ],
        p <= 255,
        call_ensures(parse_settings, (l,), r),
    ensures
        r == Ok::<Settings, AttrError>(
            Settings { priority: p as u8, stack: 512, saw_priority: true },
        ),
{
    lemma_decimal_fits(p, 255);
    let v = all_lexemes(l@);
    reveal_with_fuel(settings_from, 3);
    assert(!colons_at(v, 0));
    assert(!colons_at(v, 1));
    assert(path_end(v, 1) == Some(1int));
    assert(path_at(v, 0) == Some((1int, Some(lit("priority")))));
}

/// A setting by any other name is refused, and so are a setting without a
/// value, a negative one, and anything that is not a setting.
pub proof fn law_mistakes_are_told_apart(
    l: &Vec<Lexeme>,
    name: Seq<u8>,
    d: Seq<u8>,
    a: bool,
    b: bool,
    r: Result<Settings, AttrError>,
)
    requires
        call_ensures(parse_settings, (l,), r),
    ensures
        all_lexemes(l@) == seq![LexemeView::Word(name), LexemeView::Mark('=', a), LexemeView::Int(d)]
            && name != lit("priority") && name != lit("stack") ==> r == Err::<Settings, AttrError>(
            AttrError::Unsupported,
        ),
        all_lexemes(l@) == seq![LexemeView::Word(lit("priority"))] ==> r == Err::<
            Settings,
            AttrError,
        >(AttrError::Syntax),
        all_lexemes(l@) == seq![
            LexemeView::Word(lit("priority")),
            LexemeView::Mark('=', a),
            LexemeView::Mark('-', b),
            LexemeView::Int(d),
        ] ==> r == Err::<Settings, AttrError>(AttrError::BadNumber),
        all_lexemes(l@) == seq![LexemeView::Int(d)] ==> r == Err::<Settings, AttrError>(
            AttrError::Syntax,
        ),
        all_lexemes(l@).len() == 0 ==> r == Ok::<Settings, AttrError>(
            Settings { priority: 0, stack: 512, saw_priority: false },
        ),
{
    let v = all_lexemes(l@);
    reveal_with_fuel(settings_from, 2);
    if v == seq![LexemeView::Word(name), LexemeView::Mark('=', a), LexemeView::Int(d)] {
        assert(!colons_at(v, 0));
        assert(!colons_at(v, 1));
        assert(path_end(v, 1) == Some(1int));
        assert(path_at(v, 0) == Some((1int, Some(name))));
    }
    if v == seq![LexemeView::Word(lit("priority"))] {
        assert(!colons_at(v, 0));
        assert(!colons_at(v, 1));
        assert(path_end(v, 1) == Some(1int));
        assert(path_at(v, 0) == Some((1int, Some(lit("priority")))));
    }
    if v == seq![
        LexemeView::Word(lit("priority")),
        LexemeView::Mark('=', a),
        LexemeView::Mark('-', b),
        LexemeView::Int(d),
    ] {
        assert(!colons_at(v, 0));
        assert(!colons_at(v, 1));
        assert(path_end(v, 1) == Some(1int));
        assert(path_at(v, 0) == Some((1int, Some(lit("priority")))));
    }
    if v == seq![LexemeView::Int(d)] {
        assert(!colons_at(v, 0));
    }
}

/// A task is declared with the settings of its attribute, and the items around
/// it carry its name; a function that is not async, one with parameters, a
/// mistake in the attribute and a missing priority are refused, in that order.
pub proof fn law_task_is_declared_as_it_says(
    f: &ItemFacts,
    attr: &Vec<Lexeme>,
    s: Result<Settings, AttrError>,
    r: Result<TaskDecl, AttrError>,
)
    requires
        call_ensures(parse_settings, (attr,), s),
        call_ensures(declare, (f, attr), r),
    ensures
        !f.is_async ==> r == Err::<TaskDecl, AttrError>(AttrError::NotAsync),
        f.is_async && f.inputs > 0 ==> r == Err::<TaskDecl, AttrError>(AttrError::HasParameters),
        f.is_async && f.inputs == 0 && s is Err ==> r == Err::<TaskDecl, AttrError>(s->Err_0),
        f.is_async && f.inputs == 0 && s is Ok && !s->Ok_0.saw_priority ==> r == Err::<
            TaskDecl,
            AttrError,
        >(AttrError::NoPriority),
        f.is_async && f.inputs == 0 && s is Ok && s->Ok_0.saw_priority ==> {
            &&& r is Ok
            &&& r->Ok_0.priority == s->Ok_0.priority
            &&& r->Ok_0.stack_size == s->Ok_0.stack
            &&& f.name@.len() < 2 || f.name@[1] != 35 ==> {
                &&& r->Ok_0.poll_fn@ == lit("__rivet_poll_") + f.name@
                &&& r->Ok_0.completed_fn@ == lit("__rivet_completed_") + f.name@
                &&& r->Ok_0.cell@ == lit("__RIVET_CELL_") + f.name@
                &&& r->Ok_0.reg@ == lit("__RIVET_REG_") + f.name@
            }
            &&& f.name@.len() >= 2 && f.name@[0] == 114 && f.name@[1] == 35 ==> {
                &&& r->Ok_0.poll_fn@ == lit("__rivet_poll_") + f.name@.skip(2)
                &&& r->Ok_0.completed_fn@ == lit("__rivet_completed_") + f.name@.skip(2)
                &&& r->Ok_0.cell@ == lit("__RIVET_CELL_") + f.name@.skip(2)
                &&& r->Ok_0.reg@ == lit("__RIVET_REG_") + f.name@.skip(2)
            }
        },
{
}

/// A task in source text is declared as its function and the lexemes of its
/// attribute are.
pub proof fn law_text_is_declared_as_read(
    attr: &str,
    item: &str,
    f: &ItemFacts,
    a: &Vec<Lexeme>,
    r: Result<TaskDecl, AttrError>,
    q: Result<TaskDecl, AttrError>,
)
    requires
        call_ensures(task, (attr, item), r),
        call_ensures(declare, (f, a), q),
    ensures
        item_of(item@) == Ok::<(Seq<u8>, bool, nat), AttrError>(
            (f.name@, f.is_async, f.inputs as nat),
        ) && tokens_of(attr@) is Some && all_lexemes(a@) == lexemes(tokens_of(attr@)->0) ==> {
            &&& r is Ok == q is Ok
            &&& r is Err ==> r->Err_0 == q->Err_0
            &&& r is Ok ==> r->Ok_0.priority == q->Ok_0.priority && r->Ok_0.stack_size
                == q->Ok_0.stack_size
            &&& r is Ok ==> r->Ok_0.poll_fn@ == q->Ok_0.poll_fn@ && r->Ok_0.completed_fn@
                == q->Ok_0.completed_fn@
            &&& r is Ok ==> r->Ok_0.cell@ == q->Ok_0.cell@ && r->Ok_0.reg@ == q->Ok_0.reg@
        },
{
}

/// The entry point's attribute takes no arguments and its function no
/// parameters; what is wrong with the attribute comes first.
pub proof fn law_entry_takes_nothing(
    arguments: usize,
    f: Result<&ItemFacts, AttrError>,
    r: Result<(), AttrError>,
)
    requires
        call_ensures(check_entry, (arguments, f), r),
    ensures
        r is Ok <==> arguments == 0 && f is Ok && f->Ok_0.inputs == 0,
        arguments > 0 ==> r == Err::<(), AttrError>(AttrError::TakesNoArguments),
        arguments == 0 && f is Err ==> r == Err::<(), AttrError>(f->Err_0),
        arguments == 0 && f is Ok && f->Ok_0.inputs > 0 ==> r == Err::<(), AttrError>(
            AttrError::MainHasParameters,
        ),
{
}

/// An entry point in source text is checked as its tokens and its function
/// are.
pub proof fn law_entry_text_is_checked_as_read(
    attr: &str,
    item: &str,
    arguments: usize,
    f: &ItemFacts,
    e: AttrError,
    r: Result<(), AttrError>,
    q: Result<(), AttrError>,
    x: Result<(), AttrError>,
)
    requires
        call_ensures(entry, (attr, item), r),
        call_ensures(check_entry, (arguments, Ok::<&ItemFacts, AttrError>(f)), q),
        call_ensures(check_entry, (arguments, Err::<&ItemFacts, AttrError>(e)), x),
    ensures
        tokens_of(attr@) is Some && tokens_of(attr@)->0.len() == arguments + 1 && item_of(item@)
            == Ok::<(Seq<u8>, bool, nat), AttrError>((f.name@, f.is_async, f.inputs as nat)) ==> r
            == q,
        tokens_of(attr@) is Some && tokens_of(attr@)->0.len() == arguments + 1 && item_of(item@)
            == Err::<(Seq<u8>, bool, nat), AttrError>(e) ==> r == x,
{
}

/// What is said of a refused attribute.
pub proof fn law_refusal_is_explained(e: AttrError, r: Option<&'static str>)
    requires
        call_ensures(AttrError::message, (&e,), r),
    ensures
        e is NotAsync ==> r is Some && r->0@ == "#[rivet::task] requires an `async fn`"@,
        e is Unsupported ==> r is Some && r->0@
            == "unsupported #[rivet::task] attribute; expected `priority` or `stack`"@,
        e is NoPriority ==> r is Some && r->0@
            == "#[rivet::task] requires `priority = N`, e.g. #[rivet::task(priority = 1)]"@,
        e is TakesNoArguments ==> r is Some && r->0@ == "#[rivet::main] takes no arguments"@,
        e is MainHasParameters ==> r is Some && r->0@
            == "#[rivet::main] functions take no parameters"@,
        e is HasParameters ==> r is Some && r->0@
            == "#[rivet::task] functions currently take no parameters; use a `static` for shared state (peripherals, queues, etc.)"@,
        e is NotAFunction || e is Syntax || e is BadNumber || e is TooDeep ==> r is None,
{
}

} // verus!
