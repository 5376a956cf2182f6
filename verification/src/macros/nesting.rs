//! How deeply a function's tokens make its parser recurse.
//!
//! The parser calls itself for what stands inside a bracket and behind an
//! operator or a keyword, and the tree it builds is taken down node by node,
//! each from within the one around it. Both take stack. This module bounds both
//! from the tokens alone: a stack of open levels, each with the strain of what
//! stands before the next token, and with the height of what has been built.
use crate::macros::{all_tokens, same_bytes, Token, TokenView};
use crate::text::lit;
use vstd::prelude::*;

verus! {

/// The strain on the parser that is allowed. Without optimisation the parser
/// then stays well within two mebibytes of stack.
pub const MAX_STRAIN: u32 = 4096;

/// The strain of a level that a bracket opens.
pub const LEVEL_STRAIN: u32 = 64;

/// The strain of a level that a `<` opens.
pub const ANGLE_STRAIN: u32 = 80;

/// The strain of a level that a `|` opens.
pub const BAR_STRAIN: u32 = 24;

/// The height of a level without what stands in it.
pub const LEVEL_HEIGHT: u32 = 16;

/// What opened a level.
#[derive(Clone, Copy, PartialEq, Eq, Structural)]
pub enum Kind {
    /// A round or a square bracket, or the text began.
    Bracket,
    /// A curly bracket.
    Brace,
    /// A `<`: generic arguments or a comparison.
    Angle,
    /// A `|`: a closure's parameters, alternatives or an operator.
    Bar,
}

/// What the token before was, as far as the next one depends on it.
#[derive(Clone, Copy, PartialEq, Eq, Structural)]
pub enum Last {
    /// The first half of a `->`.
    Dash,
    /// The first half of a `=>`.
    Equals,
    /// A closing curly bracket.
    Brace,
    /// Anything else.
    Other,
}

/// An open level.
pub struct Depth {
    /// What opened it.
    pub kind: Kind,
    /// Strain of the current item of the level.
    pub strain: nat,
    /// Height that the current item's own tokens can build.
    pub own: nat,
    /// Height of the tallest group of the current item.
    pub tall: nat,
    /// Height of the tallest item before.
    pub done: nat,
}

/// What is known behind some tokens.
pub struct Scan {
    /// The open levels, the outermost first.
    pub levels: Seq<Depth>,
    /// What the last token was.
    pub last: Last,
}

/// The larger of two numbers.
pub open spec fn larger(a: nat, b: nat) -> nat {
    if a < b {
        b
    } else {
        a
    }
}

/// The strain of a token. Marks that begin a type weigh most, then words and
/// arrows, then other operators. What only builds on what stands before it, a
/// `?` or a field, does not make the parser recurse: it weighs what it adds to
/// the height. A field may be two, as in `x.0.0`.
pub open spec fn weight(t: TokenView) -> nat {
    match t {
        TokenView::Word(_) => 32,
        TokenView::Mark(ch, joint) => match ch {
            '&' => 64,
            '*' => 48,
            '@' => 32,
            '>' => 32,
            '=' => 24,
            '.' => if joint {
                32
            } else {
                2
            },
            '?' => 1,
            ',' => 0,
            ':' => 0,
            '#' => 0,
            _ => 16,
        },
        _ => 0,
    }
}

/// How much a token can add to the height.
pub open spec fn rise(t: TokenView) -> nat {
    if weight(t) > 4 {
        4
    } else {
        weight(t)
    }
}

/// The strain of a level with nothing in it.
pub open spec fn base(k: Kind) -> nat {
    match k {
        Kind::Angle => ANGLE_STRAIN as nat,
        Kind::Bar => BAR_STRAIN as nat,
        _ => LEVEL_STRAIN as nat,
    }
}

/// The level was not opened by a bracket, so that no closing one ends it.
pub open spec fn soft(k: Kind) -> bool {
    k is Angle || k is Bar
}

/// A level that has just been opened, in an item with the given tallest group.
pub open spec fn opened(k: Kind, tall: nat) -> Depth {
    Depth { kind: k, strain: base(k), own: LEVEL_HEIGHT as nat, tall, done: 0 }
}

/// How tall what stands in a level is.
pub open spec fn height(d: Depth) -> nat {
    larger(d.done, d.own + d.tall)
}

/// The level behind the end of an item.
pub open spec fn next_item(d: Depth) -> Depth {
    Depth { strain: base(d.kind), own: LEVEL_HEIGHT as nat, tall: 0, done: height(d), ..d }
}

/// The level with a further token.
pub open spec fn grown(d: Depth, strain: nat, own: nat) -> Depth {
    Depth { strain: d.strain + strain, own: d.own + own, ..d }
}

/// The level with the one inside it made part of its current item.
pub open spec fn merged(outer: Depth, inner: Depth) -> Depth {
    Depth {
        strain: outer.strain + inner.strain,
        own: outer.own + inner.own,
        tall: larger(outer.tall, larger(inner.tall, inner.done)),
        ..outer
    }
}

/// The level behind a group that was closed in it.
pub open spec fn enclosing(outer: Depth, inner: Depth) -> Depth {
    Depth { tall: larger(outer.tall, height(inner)), ..grown(outer, 1, 1) }
}

/// The levels with the innermost one replaced.
pub open spec fn with_top(l: Seq<Depth>, d: Depth) -> Seq<Depth> {
    l.drop_last().push(d)
}

/// The levels with the innermost one made part of the one around it.
pub open spec fn folded(l: Seq<Depth>) -> Seq<Depth> {
    with_top(l.drop_last(), merged(l[l.len() - 2], l.last()))
}

/// The levels down to the innermost bracket. Those that a `<` or a `|` opened
/// end there: they hold on across commas, which the levels of brackets do not,
/// because generic arguments and a closure's parameters have commas in them.
pub open spec fn flat(l: Seq<Depth>) -> Seq<Depth>
    decreases l.len(),
{
    if l.len() >= 2 && soft(l.last().kind) {
        flat(folded(l))
    } else {
        l
    }
}

/// The levels behind the end of a statement or of the head of a match arm:
/// nothing that stands before it encloses what follows.
pub open spec fn ended(l: Seq<Depth>) -> Seq<Depth> {
    with_top(flat(l), next_item(flat(l).last()))
}

/// A word that goes on with an expression behind a block.
pub open spec fn continues(w: Seq<u8>) -> bool {
    w == lit("else") || w == lit("as") || w == lit("in")
}

/// A block is over, and the token begins a statement, an item or an arm.
pub open spec fn begins_anew(last: Last, t: TokenView) -> bool {
    last is Brace && match t {
        TokenView::Word(w) => !continues(w),
        TokenView::Mark(ch, _) => ch == '#',
        _ => false,
    }
}

/// What the token is to the one behind it.
pub open spec fn trace(t: TokenView) -> Last {
    match t {
        TokenView::Mark(ch, joint) => if ch == '-' && joint {
            Last::Dash
        } else if ch == '=' && joint {
            Last::Equals
        } else {
            Last::Other
        },
        _ => Last::Other,
    }
}

/// The levels with a token that neither opens nor closes one.
pub open spec fn counted(l: Seq<Depth>, t: TokenView) -> Seq<Depth> {
    with_top(l, grown(l.last(), weight(t), rise(t)))
}

/// The levels behind a punctuation character.
pub open spec fn marked(s: Scan, t: TokenView, ch: char) -> Seq<Depth> {
    let l = s.levels;
    if ch == ';' || (ch == '>' && s.last is Equals) {
        ended(l)
    } else if ch == ',' {
        with_top(l, next_item(l.last()))
    } else if ch == '<' {
        l.push(opened(Kind::Angle, l.last().tall))
    } else if ch == '|' {
        l.push(opened(Kind::Bar, l.last().tall))
    } else if ch == '>' && !(s.last is Dash) && l.len() >= 2 && l.last().kind is Angle {
        counted(folded(l), t)
    } else {
        counted(l, t)
    }
}

/// What is known behind a further token.
pub open spec fn next(s: Scan, t: TokenView) -> Scan {
    if s.levels.len() == 0 {
        s
    } else {
        let l = if begins_anew(s.last, t) {
            ended(s.levels)
        } else {
            s.levels
        };
        match t {
            TokenView::Open(curly) => Scan {
                levels: l.push(
                    opened(
                        if curly {
                            Kind::Brace
                        } else {
                            Kind::Bracket
                        },
                        0,
                    ),
                ),
                last: Last::Other,
            },
            TokenView::Close => {
                let f = flat(l);
                Scan {
                    levels: if f.len() < 2 {
                        f.drop_last()
                    } else {
                        with_top(f.drop_last(), enclosing(f[f.len() - 2], f.last()))
                    },
                    last: if f.last().kind is Brace {
                        Last::Brace
                    } else {
                        Last::Other
                    },
                }
            },
            TokenView::Mark(ch, _) => Scan {
                levels: marked(Scan { levels: l, ..s }, t, ch),
                last: trace(t),
            },
            _ => Scan { levels: counted(l, t), last: Last::Other },
        }
    }
}

/// What is known behind the first `n` tokens.
pub open spec fn scan(t: Seq<TokenView>, n: int) -> Scan
    decreases n,
{
    if n <= 0 {
        Scan { levels: seq![opened(Kind::Bracket, 0)], last: Last::Other }
    } else {
        next(scan(t, n - 1), t[n - 1])
    }
}

/// The strain of all levels together.
pub open spec fn total_strain(l: Seq<Depth>) -> nat
    decreases l.len(),
{
    if l.len() == 0 {
        0
    } else {
        total_strain(l.drop_last()) + l.last().strain
    }
}

/// The strain of the open levels, and of taking down what was built in the
/// innermost.
pub open spec fn strain(l: Seq<Depth>) -> nat {
    if l.len() == 0 {
        0
    } else {
        total_strain(l) + larger(l.last().tall, l.last().done)
    }
}

/// The tokens are not nested too deeply for the parser.
pub open spec fn shallow(t: Seq<TokenView>) -> bool {
    forall|n: int| 0 <= n <= t.len() ==> strain((#[trigger] scan(t, n)).levels) <= MAX_STRAIN
}

/// An open level.
#[derive(Clone, Copy)]
struct Level {
    kind: Kind,
    strain: u32,
    own: u32,
    tall: u32,
    done: u32,
}

impl Level {
    /// The level.
    spec fn depth(&self) -> Depth {
        Depth {
            kind: self.kind,
            strain: self.strain as nat,
            own: self.own as nat,
            tall: self.tall as nat,
            done: self.done as nat,
        }
    }
}

/// The levels.
spec fn depths(v: Seq<Level>) -> Seq<Depth> {
    Seq::new(v.len(), |i: int| v[i].depth())
}

/// No height in the levels is above `k`.
spec fn within(l: Seq<Depth>, k: nat) -> bool {
    forall|i: int|
        0 <= i < l.len() ==> (#[trigger] l[i]).own <= l[i].strain && base(l[i].kind) <= l[i].strain
            && l[i].tall <= k && l[i].done <= k
}

proof fn lemma_parts(l: Seq<Depth>, i: int)
    requires
        0 <= i < l.len(),
    ensures
        l[i].strain <= total_strain(l),
    decreases l.len(),
{
    if i < l.len() - 1 {
        lemma_parts(l.drop_last(), i);
    }
}

proof fn lemma_with_top(l: Seq<Depth>, d: Depth, k: nat, m: nat)
    requires
        l.len() > 0,
        within(l, k),
        k <= m,
        d.own <= d.strain,
        base(d.kind) <= d.strain,
        d.tall <= m,
        d.done <= m,
    ensures
        total_strain(with_top(l, d)) == total_strain(l) - l.last().strain + d.strain,
        within(with_top(l, d), m),
{
    let n = with_top(l, d);
    assert(n.drop_last() =~= l.drop_last());
    assert forall|i: int| 0 <= i < n.len() implies (#[trigger] n[i]).own <= n[i].strain && base(
        n[i].kind,
    ) <= n[i].strain && n[i].tall <= m && n[i].done <= m by {
        if i < n.len() - 1 {
            assert(n[i] == l[i]);
        }
    }
}

proof fn lemma_less(l: Seq<Depth>, k: nat)
    requires
        within(l, k),
        l.len() > 0,
    ensures
        within(l.drop_last(), k),
        total_strain(l.drop_last()) <= total_strain(l),
{
    assert forall|i: int| 0 <= i < l.len() - 1 implies l[i] == #[trigger] l.drop_last()[i] by {}
}

proof fn lemma_folded(l: Seq<Depth>, k: nat)
    requires
        l.len() >= 2,
        within(l, k),
    ensures
        total_strain(folded(l)) == total_strain(l),
        within(folded(l), k),
{
    let outer = l[l.len() - 2];
    let inner = l[l.len() - 1];
    assert(outer.tall <= k && inner.tall <= k);
    lemma_less(l, k);
    assert(l.drop_last().last() == outer);
    lemma_with_top(l.drop_last(), merged(outer, inner), k, k);
}

proof fn lemma_flat(l: Seq<Depth>)
    requires
        l.len() > 0,
    ensures
        0 < flat(l).len() <= l.len(),
        forall|i: int| 0 <= i < flat(l).len() - 1 ==> #[trigger] flat(l)[i] == l[i],
    decreases l.len(),
{
    if l.len() >= 2 && soft(l.last().kind) {
        lemma_flat(folded(l));
        assert forall|i: int| 0 <= i < folded(l).len() - 1 implies folded(l)[i] == l[i] by {}
    }
}

/// A token leaves all levels but the innermost as they are.
proof fn lemma_below(s: Scan, t: TokenView)
    ensures
        next(s, t).levels.len() <= s.levels.len() + 1,
        forall|i: int|
            0 <= i < next(s, t).levels.len() - 1 ==> #[trigger] next(s, t).levels[i]
                == s.levels[i],
{
    if s.levels.len() > 0 {
        lemma_flat(s.levels);
    }
}

fn max(a: u32, b: u32) -> (r: u32)
    ensures
        r == larger(a as nat, b as nat),
{
    if a < b {
        b
    } else {
        a
    }
}

fn base_strain(k: Kind) -> (r: u32)
    ensures
        r == base(k),
        LEVEL_HEIGHT <= r <= 80,
{
    match k {
        Kind::Angle => ANGLE_STRAIN,
        Kind::Bar => BAR_STRAIN,
        _ => LEVEL_STRAIN,
    }
}

/// How much a token strains the parser, and how much it can add to the height.
fn weigh(t: &Token) -> (r: (u32, u32))
    ensures
        r.0 == weight(t.what()),
        r.1 == rise(t.what()),
        r.1 <= r.0 <= 64,
{
    let w: u32 = match t {
        Token::Word(_) => 32,
        Token::Mark { ch, joint } => match *ch {
            '&' => 64,
            '*' => 48,
            '@' => 32,
            '>' => 32,
            '=' => 24,
            '.' => if *joint {
                32
            } else {
                2
            },
            '?' => 1,
            ',' => 0,
            ':' => 0,
            '#' => 0,
            _ => 16,
        },
        _ => 0,
    };
    if w > 4 {
        (w, 4)
    } else {
        (w, w)
    }
}

/// Whether a block is over and the token begins a statement, an item or an arm.
fn starts_anew(last: Last, t: &Token) -> (r: bool)
    ensures
        r == begins_anew(last, t.what()),
{
    match last {
        Last::Brace => match t {
            Token::Word(w) => !same_bytes(w, "else") && !same_bytes(w, "as") && !same_bytes(
                w,
                "in",
            ),
            Token::Mark { ch, .. } => *ch == '#',
            _ => false,
        },
        _ => false,
    }
}

/// What the token is to the one behind it.
fn traced(t: &Token) -> (r: Last)
    ensures
        r == trace(t.what()),
{
    match t {
        Token::Mark { ch, joint } => if *ch == '-' && *joint {
            Last::Dash
        } else if *ch == '=' && *joint {
            Last::Equals
        } else {
            Last::Other
        },
        _ => Last::Other,
    }
}

/// The levels of a text that is being read, and their strain.
struct Reader {
    levels: Vec<Level>,
    total: u32,
    last: Last,
}

impl Reader {
    spec fn depths(&self) -> Seq<Depth> {
        depths(self.levels@)
    }

    /// The total is the levels', and neither it nor a height is too large.
    spec fn fits(&self, most: nat, k: nat) -> bool {
        &&& self.total == total_strain(self.depths())
        &&& self.total <= most
        &&& most + k <= 0x1_0000
        &&& within(self.depths(), k)
    }

    /// Replace the innermost level.
    fn set_top(
        &mut self,
        new: Level,
        Ghost(most): Ghost<nat>,
        Ghost(k): Ghost<nat>,
        Ghost(m): Ghost<nat>,
    )
        requires
            old(self).fits(most, k),
            old(self).levels@.len() > 0,
            k <= m,
            new.own <= new.strain <= old(self).levels@.last().strain + 64,
            base(new.kind) <= new.strain,
            new.tall <= m,
            new.done <= m,
            most + m + 64 <= 0x1_0000,
        ensures
            final(self).last == old(self).last,
            final(self).depths() == with_top(old(self).depths(), new.depth()),
            final(self).fits(most + 64, m),
            new.strain <= old(self).levels@.last().strain ==> final(self).fits(most, m),
    {
        let ghost l = self.depths();
        proof {
            lemma_with_top(l, new.depth(), k, m);
            lemma_parts(l, l.len() - 1);
        }
        if let Some(was) = self.levels.pop() {
            assert(was.depth() == l.last());
            self.total = self.total - was.strain + new.strain;
            self.levels.push(new);
        }
        assert(self.depths() =~= with_top(l, new.depth()));
    }

    /// Make the innermost level part of the one around it.
    fn fold(&mut self, Ghost(most): Ghost<nat>, Ghost(k): Ghost<nat>)
        requires
            old(self).fits(most, k),
            old(self).levels@.len() >= 2,
        ensures
            final(self).fits(most, k),
            final(self).last == old(self).last,
            final(self).levels@.len() == old(self).levels@.len() - 1,
            final(self).depths() == folded(old(self).depths()),
    {
        let ghost l = self.depths();
        proof {
            lemma_folded(l, k);
            lemma_parts(folded(l), l.len() - 2);
            assert(l[l.len() - 1].own <= l[l.len() - 1].strain);
            assert(l[l.len() - 2].own <= l[l.len() - 2].strain);
        }
        let n: usize = self.levels.len();
        let inner = self.levels[n - 1];
        let outer = self.levels[n - 2];
        let _ = self.levels.pop();
        let _ = self.levels.pop();
        self.levels.push(
            Level {
                kind: outer.kind,
                strain: outer.strain + inner.strain,
                own: outer.own + inner.own,
                tall: max(outer.tall, max(inner.tall, inner.done)),
                done: outer.done,
            },
        );
        assert(self.depths() =~= folded(l));
    }

    /// Go down to the innermost bracket.
    fn flatten(&mut self, Ghost(most): Ghost<nat>, Ghost(k): Ghost<nat>)
        requires
            old(self).fits(most, k),
            old(self).levels@.len() > 0,
        ensures
            final(self).fits(most, k),
            final(self).last == old(self).last,
            final(self).levels@.len() > 0,
            final(self).depths() == flat(old(self).depths()),
    {
        let ghost goal = flat(self.depths());
        loop
            invariant_except_break
                flat(self.depths()) == goal,
            invariant
                self.levels@.len() > 0,
                self.fits(most, k),
                self.last == old(self).last,
            ensures
                self.depths() == goal,
            decreases self.levels@.len(),
        {
            let n: usize = self.levels.len();
            let kind = self.levels[n - 1].kind;
            let is_soft = match kind {
                Kind::Angle => true,
                Kind::Bar => true,
                _ => false,
            };
            assert(self.depths().last().kind == kind);
            if n < 2 || !is_soft {
                break;
            }
            self.fold(Ghost(most), Ghost(k));
        }
    }

    /// Begin the next item of the innermost level.
    fn begin(&mut self, Ghost(most): Ghost<nat>, Ghost(k): Ghost<nat>)
        requires
            old(self).fits(most, k),
            old(self).levels@.len() > 0,
            most + most + k + 64 <= 0x1_0000,
        ensures
            final(self).fits(most, most + k),
            final(self).last == old(self).last,
            final(self).levels@.len() == old(self).levels@.len(),
            final(self).depths() == with_top(
                old(self).depths(),
                next_item(old(self).depths().last()),
            ),
    {
        let ghost l = self.depths();
        let d = self.levels[self.levels.len() - 1];
        proof {
            lemma_parts(l, l.len() - 1);
            assert(d.depth() == l[l.len() - 1]);
        }
        let new = Level {
            kind: d.kind,
            strain: base_strain(d.kind),
            own: LEVEL_HEIGHT,
            tall: 0,
            done: max(d.done, d.own + d.tall),
        };
        self.set_top(new, Ghost(most), Ghost(k), Ghost(most + k));
    }

    /// Count a token that neither opens nor closes a level.
    fn count(&mut self, t: &Token, Ghost(most): Ghost<nat>, Ghost(k): Ghost<nat>)
        requires
            old(self).fits(most, k),
            old(self).levels@.len() > 0,
            most + k + 64 <= 0x1_0000,
        ensures
            final(self).fits(most + 64, k),
            final(self).last == old(self).last,
            final(self).depths() == counted(old(self).depths(), t.what()),
    {
        let ghost l = self.depths();
        let d = self.levels[self.levels.len() - 1];
        proof {
            lemma_parts(l, l.len() - 1);
            assert(d.depth() == l[l.len() - 1]);
        }
        let (w, h) = weigh(t);
        self.set_top(
            Level { strain: d.strain + w, own: d.own + h, ..d },
            Ghost(most),
            Ghost(k),
            Ghost(k),
        );
    }

    /// Open a level.
    fn open(&mut self, kind: Kind, tall: u32, Ghost(most): Ghost<nat>, Ghost(k): Ghost<nat>)
        requires
            old(self).fits(most, k),
            tall <= k,
            most + k + 80 <= 0x1_0000,
        ensures
            final(self).fits(most + 80, k),
            final(self).last == old(self).last,
            final(self).depths() == old(self).depths().push(opened(kind, tall as nat)),
    {
        let ghost l = self.depths();
        let strain: u32 = base_strain(kind);
        self.total = self.total + strain;
        self.levels.push(Level { kind, strain, own: LEVEL_HEIGHT, tall, done: 0 });
        let ghost m = self.depths();
        proof {
            assert(m =~= l.push(opened(kind, tall as nat)));
            assert(m.drop_last() =~= l);
            assert forall|i: int| 0 <= i < m.len() implies (#[trigger] m[i]).own <= m[i].strain
                && base(m[i].kind) <= m[i].strain && m[i].tall <= k && m[i].done <= k by {
                if i < m.len() - 1 {
                    assert(m[i] == l[i]);
                }
            }
        }
    }

    /// Close the innermost bracket.
    fn close(&mut self, Ghost(most): Ghost<nat>, Ghost(k): Ghost<nat>)
        requires
            old(self).fits(most, k),
            old(self).levels@.len() > 0,
            most + most + k + 64 <= 0x1_0000,
        ensures
            final(self).fits(most + 64, most + k),
            final(self).depths() == next(
                (Scan { levels: old(self).depths(), last: Last::Other }),
                TokenView::Close,
            ).levels,
            final(self).last == next(
                (Scan { levels: old(self).depths(), last: Last::Other }),
                TokenView::Close,
            ).last,
    {
        self.flatten(Ghost(most), Ghost(k));
        let ghost f = self.depths();
        proof {
            lemma_parts(f, f.len() - 1);
            lemma_less(f, k);
        }
        if let Some(inner) = self.levels.pop() {
            assert(inner.depth() == f[f.len() - 1]);
            assert(self.depths() =~= f.drop_last());
            self.total = self.total - inner.strain;
            let n: usize = self.levels.len();
            if n > 0 {
                let outer = self.levels[n - 1];
                proof {
                    lemma_parts(f.drop_last(), f.len() - 2);
                    assert(outer.depth() == f[f.len() - 2]);
                }
                let tall: u32 = max(outer.tall, max(inner.done, inner.own + inner.tall));
                self.set_top(
                    Level { strain: outer.strain + 1, own: outer.own + 1, tall, ..outer },
                    Ghost(most),
                    Ghost(k),
                    Ghost(most + k),
                );
            }
            self.last = match inner.kind {
                Kind::Brace => Last::Brace,
                _ => Last::Other,
            };
        }
    }

    /// Read a punctuation character.
    fn mark(&mut self, t: &Token, ch: char, Ghost(most): Ghost<nat>, Ghost(k): Ghost<nat>)
        requires
            old(self).fits(most, k),
            old(self).levels@.len() > 0,
            most + most + k + 80 <= 0x1_0000,
            t.what() matches TokenView::Mark(c, _) && c == ch,
        ensures
            final(self).fits(most + 80, most + k),
            final(self).depths() == marked(
                (Scan { levels: old(self).depths(), last: old(self).last }),
                t.what(),
                ch,
            ),
            final(self).last == old(self).last,
    {
        let ghost l = self.depths();
        let top = self.levels[self.levels.len() - 1];
        assert(top.depth() == l[l.len() - 1]);
        let arrow = match self.last {
            Last::Dash => true,
            _ => false,
        };
        let double = match self.last {
            Last::Equals => true,
            _ => false,
        };
        let angle = match top.kind {
            Kind::Angle => true,
            _ => false,
        };
        if ch == ';' || (ch == '>' && double) {
            self.flatten(Ghost(most), Ghost(k));
            self.begin(Ghost(most), Ghost(k));
        } else if ch == ',' {
            self.begin(Ghost(most), Ghost(k));
        } else if ch == '<' {
            self.open(Kind::Angle, top.tall, Ghost(most), Ghost(k));
        } else if ch == '|' {
            self.open(Kind::Bar, top.tall, Ghost(most), Ghost(k));
        } else if ch == '>' && !arrow && self.levels.len() >= 2 && angle {
            self.fold(Ghost(most), Ghost(k));
            self.count(t, Ghost(most), Ghost(k));
        } else {
            self.count(t, Ghost(most), Ghost(k));
        }
    }

    /// Read a token.
    fn read(&mut self, t: &Token)
        requires
            old(self).fits(MAX_STRAIN as nat, MAX_STRAIN as nat),
            old(self).levels@.len() > 0,
        ensures
            (Scan { levels: final(self).depths(), last: final(self).last }) == next(
                (Scan { levels: old(self).depths(), last: old(self).last }),
                t.what(),
            ),
            final(self).fits(MAX_STRAIN as nat + 80, 3 * MAX_STRAIN as nat),
    {
        let ghost most = MAX_STRAIN as nat;
        let ghost k = 2 * MAX_STRAIN as nat;
        if starts_anew(self.last, t) {
            self.flatten(Ghost(most), Ghost(most));
            self.begin(Ghost(most), Ghost(most));
        }
        match t {
            Token::Open { curly } => {
                let kind = if *curly {
                    Kind::Brace
                } else {
                    Kind::Bracket
                };
                self.open(kind, 0, Ghost(most), Ghost(k));
                self.last = Last::Other;
            },
            Token::Close => {
                self.close(Ghost(most), Ghost(k));
            },
            Token::Mark { ch, .. } => {
                self.mark(t, *ch, Ghost(most), Ghost(k));
                self.last = traced(t);
            },
            _ => {
                self.count(t, Ghost(most), Ghost(k));
                self.last = Last::Other;
            },
        }
    }

    /// Whether the strain is allowed.
    fn allowed(&self) -> (r: bool)
        requires
            self.fits(MAX_STRAIN as nat + 80, 3 * MAX_STRAIN as nat),
        ensures
            r == (strain(self.depths()) <= MAX_STRAIN),
    {
        let n: usize = self.levels.len();
        if n == 0 {
            return true;
        }
        let top = self.levels[n - 1];
        assert(top.depth() == self.depths()[n - 1]);
        self.total + max(top.tall, top.done) <= MAX_STRAIN
    }
}

/// Whether the tokens are not nested too deeply for the parser.
pub fn is_shallow(tokens: &Vec<Token>) -> (r: bool)
    ensures
        r == shallow(all_tokens(tokens@)),
{
    let ghost t = all_tokens(tokens@);
    let mut reader = Reader { levels: Vec::new(), total: 0, last: Last::Other };
    reader.open(Kind::Bracket, 0, Ghost(0), Ghost(MAX_STRAIN as nat));
    assert(reader.depths() =~= seq![opened(Kind::Bracket, 0)]);
    let mut i: usize = 0;
    while i < tokens.len()
        invariant
            i <= tokens@.len(),
            t == all_tokens(tokens@),
            reader.fits(MAX_STRAIN as nat, MAX_STRAIN as nat),
            (Scan { levels: reader.depths(), last: reader.last }) == scan(t, i as int),
            forall|n: int|
                0 <= n <= i ==> strain((#[trigger] scan(t, n)).levels) <= MAX_STRAIN,
        decreases tokens@.len() - i,
    {
        if reader.levels.len() > 0 {
            let ghost before = Scan { levels: reader.depths(), last: reader.last };
            reader.read(&tokens[i]);
            if !reader.allowed() {
                assert(strain(scan(t, i + 1).levels) > MAX_STRAIN);
                return false;
            }
            proof {
                let l = reader.depths();
                lemma_below(before, t[i as int]);
                assert forall|j: int| 0 <= j < l.len() implies (#[trigger] l[j]).tall <= MAX_STRAIN
                    && l[j].done <= MAX_STRAIN by {
                    if j < l.len() - 1 {
                        assert(l[j] == before.levels[j]);
                    }
                }
            }
        }
        i = i + 1;
    }
    true
}

proof fn lemma_brackets_open(t: Seq<TokenView>, n: int)
    requires
        0 <= n <= t.len(),
        forall|i: int| 0 <= i < t.len() ==> (#[trigger] t[i]) is Open,
    ensures
        scan(t, n).levels.len() == n + 1,
        total_strain(scan(t, n).levels) == 64 * (n + 1),
        scan(t, n).levels.last().tall == 0,
        scan(t, n).levels.last().done == 0,
        scan(t, n).last is Other,
    decreases n,
{
    if n == 0 {
        let l = scan(t, 0).levels;
        assert(l.drop_last() =~= Seq::<Depth>::empty());
        assert(total_strain(l.drop_last()) == 0);
    } else {
        lemma_brackets_open(t, n - 1);
        assert(t[n - 1] is Open);
        let before = scan(t, n - 1).levels;
        assert(scan(t, n).levels.drop_last() =~= before);
    }
}

/// Of brackets that are opened one in another, 63 are allowed and no more.
pub proof fn law_brackets_are_limited(tokens: &Vec<Token>, r: bool)
    requires
        call_ensures(is_shallow, (tokens,), r),
        forall|i: int| 0 <= i < tokens@.len() ==> (#[trigger] tokens@[i]) is Open,
    ensures
        r <==> tokens@.len() <= 63,
{
    let t = all_tokens(tokens@);
    assert forall|i: int| 0 <= i < t.len() implies (#[trigger] t[i]) is Open by {
        assert(tokens@[i] is Open);
    }
    assert forall|n: int| 0 <= n <= t.len() implies strain((#[trigger] scan(t, n)).levels) == 64
        * (n + 1) by {
        lemma_brackets_open(t, n);
    }
    assert(strain(scan(t, t.len() as int).levels) == 64 * (t.len() + 1));
}

proof fn lemma_words_add_up(t: Seq<TokenView>, n: int)
    requires
        0 <= n <= t.len(),
        forall|i: int| 0 <= i < t.len() ==> (#[trigger] t[i]) is Word,
    ensures
        scan(t, n).levels.len() == 1,
        scan(t, n).levels[0].strain == 64 + 32 * n,
        scan(t, n).levels[0].tall == 0,
        scan(t, n).levels[0].done == 0,
        scan(t, n).last is Other,
    decreases n,
{
    if n > 0 {
        lemma_words_add_up(t, n - 1);
        assert(t[n - 1] is Word);
    }
}

/// Of words in a row, 126 are allowed and no more.
pub proof fn law_words_are_limited(tokens: &Vec<Token>, r: bool)
    requires
        call_ensures(is_shallow, (tokens,), r),
        forall|i: int| 0 <= i < tokens@.len() ==> (#[trigger] tokens@[i]) is Word,
    ensures
        r <==> tokens@.len() <= 126,
{
    let t = all_tokens(tokens@);
    assert forall|i: int| 0 <= i < t.len() implies (#[trigger] t[i]) is Word by {
        assert(tokens@[i] is Word);
    }
    assert forall|n: int| 0 <= n <= t.len() implies strain((#[trigger] scan(t, n)).levels) == 64
        + 32 * n by {
        lemma_words_add_up(t, n);
        let l = scan(t, n).levels;
        assert(l.drop_last() =~= Seq::<Depth>::empty());
        assert(total_strain(l.drop_last()) == 0);
    }
    assert(strain(scan(t, t.len() as int).levels) == 64 + 32 * t.len());
}

proof fn lemma_scan_prefix(a: Seq<TokenView>, b: Seq<TokenView>, n: int)
    requires
        0 <= n <= a.len(),
        a.len() <= b.len(),
        forall|i: int| 0 <= i < a.len() ==> #[trigger] a[i] == b[i],
    ensures
        scan(a, n) == scan(b, n),
    decreases n,
{
    if n > 0 {
        lemma_scan_prefix(a, b, n - 1);
        assert(a[n - 1] == b[n - 1]);
    }
}

/// What was refused stays refused with more tokens behind it.
pub proof fn law_refusal_lasts(some: &Vec<Token>, more: &Vec<Token>, r: bool, q: bool)
    requires
        call_ensures(is_shallow, (some,), r),
        call_ensures(is_shallow, (more,), q),
        some@.len() <= more@.len(),
        forall|i: int| 0 <= i < some@.len() ==> (#[trigger] some@[i]).what() == more@[i].what(),
        !r,
    ensures
        !q,
{
    let a = all_tokens(some@);
    let b = all_tokens(more@);
    assert forall|i: int| 0 <= i < a.len() implies #[trigger] a[i] == b[i] by {
        assert(some@[i].what() == more@[i].what());
    }
    let n = choose|n: int|
        0 <= n <= a.len() && !(strain((#[trigger] scan(a, n)).levels) <= MAX_STRAIN);
    lemma_scan_prefix(a, b, n);
    assert(strain(scan(b, n).levels) > MAX_STRAIN);
}

proof fn lemma_statements(t: Seq<TokenView>, n: int)
    requires
        0 <= n <= t.len(),
        forall|i: int|
            0 <= i < t.len() ==> if i % 2 == 0 {
                (#[trigger] t[i]) is Word
            } else {
                t[i] == TokenView::Mark(';', false)
            },
    ensures
        ({
            let l = scan(t, n).levels;
            &&& l.len() == 1
            &&& l[0].kind is Bracket
            &&& l[0].strain == 64 + 32 * (n % 2)
            &&& l[0].own == 16 + 4 * (n % 2)
            &&& l[0].tall == 0
            &&& l[0].done <= 20
            &&& scan(t, n).last is Other
        }),
    decreases n,
{
    if n > 0 {
        lemma_statements(t, n - 1);
        let l = scan(t, n - 1).levels;
        if (n - 1) % 2 == 0 {
            assert(t[n - 1] is Word);
        } else {
            assert(t[n - 1] == TokenView::Mark(';', false));
            assert(flat(l) == l);
        }
    }
}

/// Statements do not add up: however many stand one behind another, they are
/// allowed.
pub proof fn law_statements_do_not_add_up(tokens: &Vec<Token>, r: bool)
    requires
        call_ensures(is_shallow, (tokens,), r),
        forall|i: int|
            0 <= i < tokens@.len() ==> if i % 2 == 0 {
                (#[trigger] tokens@[i]).what() is Word
            } else {
                tokens@[i].what() == TokenView::Mark(';', false)
            },
    ensures
        r,
{
    let t = all_tokens(tokens@);
    assert forall|i: int| 0 <= i < t.len() implies if i % 2 == 0 {
        (#[trigger] t[i]) is Word
    } else {
        t[i] == TokenView::Mark(';', false)
    } by {
        assert(t[i] == tokens@[i].what());
    }
    assert forall|n: int| 0 <= n <= t.len() implies strain((#[trigger] scan(t, n)).levels)
        <= MAX_STRAIN by {
        lemma_statements(t, n);
        let l = scan(t, n).levels;
        assert(l.drop_last() =~= Seq::<Depth>::empty());
        assert(total_strain(l.drop_last()) == 0);
    }
}

} // verus!
