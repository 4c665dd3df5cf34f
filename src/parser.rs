use vstd::prelude::*;
use vstd::string::{StrSliceExecFns, StringExecFns};

verus! {

/// What a parser produces.
#[derive(Debug, PartialEq)]
pub enum Parsed {
    Char(char),
    Text(String),
    Bool(bool),
    Pair(Box<Parsed>, Box<Parsed>),
    Maybe(Option<Box<Parsed>>),
    List(Vec<Parsed>),
    Tagged(u32, Box<Parsed>),
}

/// The mathematical value of a parse result.
pub enum Tree {
    Char(char),
    Text(Seq<char>),
    Bool(bool),
    Pair(Box<Tree>, Box<Tree>),
    Maybe(Option<Box<Tree>>),
    List(Seq<Tree>),
    Tagged(u32, Box<Tree>),
}

impl Parsed {
    /// The mathematical value of this result.
    pub open spec fn tree(&self) -> Tree
        decreases self,
    {
        match self {
            Parsed::Char(c) => Tree::Char(*c),
            Parsed::Text(s) => Tree::Text(s@),
            Parsed::Bool(b) => Tree::Bool(*b),
            Parsed::Pair(a, b) => Tree::Pair(Box::new(a.tree()), Box::new(b.tree())),
            Parsed::Maybe(o) => Tree::Maybe(
                match o {
                    Some(x) => Some(Box::new(x.tree())),
                    None => None,
                },
            ),
            Parsed::List(v) => Tree::List(trees(v@)),
            Parsed::Tagged(k, x) => Tree::Tagged(*k, Box::new(x.tree())),
        }
    }
}

/// The values of a sequence of results.
pub open spec fn trees(v: Seq<Parsed>) -> Seq<Tree>
    decreases v,
{
    Seq::new(
        v.len(),
        |i: int|
            if 0 <= i < v.len() {
                v[i].tree()
            } else {
                Tree::Bool(false)
            },
    )
}

impl View for Parsed {
    type V = Tree;

    open spec fn view(&self) -> Tree {
        self.tree()
    }
}

/// A transformation of a successful parse result.
#[derive(Debug, Clone, Copy, PartialEq, Eq, Structural)]
pub enum Action {
    /// The left part of a pair.
    First,
    /// The right part of a pair.
    Second,
    /// The characters of a list, as text.
    Collect,
    /// A constant boolean in place of the result.
    Bool(bool),
    /// The result under a label.
    Tag(u32),
}

/// A parser, as data. `Rule(k)` stands for the parser bound to slot `k` of a
/// rule table, which is looked up when parsing; this is how a parser refers
/// to one that is defined later, or to itself.
#[derive(Debug)]
pub enum Combinator {
    /// One given character.
    Char(char),
    /// A given text.
    Text(&'static str),
    /// Both in order; the result is the pair of their results.
    Then(Box<Combinator>, Box<Combinator>),
    /// The first, else the second, each tried on the same input.
    Or(Box<Combinator>, Box<Combinator>),
    /// Never succeeds.
    Fail,
    /// The parser, with its result transformed.
    Mapped(Box<Combinator>, Action),
    /// The parser, or nothing without consuming input.
    Optional(Box<Combinator>),
    /// The parser as often as it succeeds, zero times or more.
    Many(Box<Combinator>),
    /// The parser as often as it succeeds, at least once.
    Many1(Box<Combinator>),
    /// The parser bound to a slot of the rule table.
    Rule(usize),
}

/// How many rule references one parse may follow inside each other.
pub const MAX_RULE_DEPTH: u64 = 4096;

/// The characters among `xs`, in order.
pub open spec fn chars_of(xs: Seq<Tree>) -> Seq<char>
    decreases xs.len(),
{
    if xs.len() == 0 {
        seq![]
    } else {
        match xs.last() {
            Tree::Char(c) => chars_of(xs.drop_last()).push(c),
            _ => chars_of(xs.drop_last()),
        }
    }
}

/// What `a` makes of the result `t`.
pub open spec fn apply_action(a: Action, t: Tree) -> Tree {
    match a {
        Action::First => match t {
            Tree::Pair(x, _) => *x,
            _ => t,
        },
        Action::Second => match t {
            Tree::Pair(_, y) => *y,
            _ => t,
        },
        Action::Collect => match t {
            Tree::List(xs) => Tree::Text(chars_of(xs)),
            _ => t,
        },
        Action::Bool(b) => Tree::Bool(b),
        Action::Tag(k) => Tree::Tagged(k, Box::new(t)),
    }
}

/// What `c` does on `s` from position `pos`: the result and the position
/// after what it consumed, or `None` when it fails. `fuel` bounds how many
/// rule references may be followed inside each other.
pub open spec fn run(rules: Seq<Option<Combinator>>, c: Combinator, s: Seq<char>, pos: nat, fuel: nat) -> Option<(Tree, nat)>
    decreases fuel, c, 0nat,
{
    match c {
        Combinator::Char(ch) => if pos < s.len() && s[pos as int] == ch {
            Some((Tree::Char(ch), pos + 1))
        } else {
            None
        },
        Combinator::Text(t) => if pos + t@.len() <= s.len() && s.subrange(pos as int, (pos + t@.len()) as int) == t@ {
            Some((Tree::Text(t@), pos + t@.len()))
        } else {
            None
        },
        Combinator::Then(a, b) => match run(rules, *a, s, pos, fuel) {
            Some((x, p1)) => match run(rules, *b, s, p1, fuel) {
                Some((y, p2)) => Some((Tree::Pair(Box::new(x), Box::new(y)), p2)),
                None => None,
            },
            None => None,
        },
        Combinator::Or(a, b) => match run(rules, *a, s, pos, fuel) {
            Some(r) => Some(r),
            None => run(rules, *b, s, pos, fuel),
        },
        Combinator::Fail => None,
        Combinator::Mapped(p, a) => match run(rules, *p, s, pos, fuel) {
            Some((x, p1)) => Some((apply_action(a, x), p1)),
            None => None,
        },
        Combinator::Optional(p) => match run(rules, *p, s, pos, fuel) {
            Some((x, p1)) => Some((Tree::Maybe(Some(Box::new(x))), p1)),
            None => Some((Tree::Maybe(None), pos)),
        },
        Combinator::Many(p) => {
            let (xs, p1) = run_many(rules, *p, s, pos, fuel);
            Some((Tree::List(xs), p1))
        },
        Combinator::Many1(p) => match run(rules, *p, s, pos, fuel) {
            Some((x, p1)) => {
                let (xs, p2) = run_many(rules, *p, s, p1, fuel);
                Some((Tree::List(seq![x] + xs), p2))
            },
            None => None,
        },
        Combinator::Rule(k) => if fuel > 0 && k < rules.len() {
            match rules[k as int] {
                Some(def) => run(rules, def, s, pos, (fuel - 1) as nat),
                None => None,
            }
        } else {
            None
        },
    }
}

/// Repeats `p` from `pos` while it succeeds and consumes input: the results
/// and the position after the last of them. A success that consumes nothing
/// ends the repetition and is not kept.
pub open spec fn run_many(rules: Seq<Option<Combinator>>, p: Combinator, s: Seq<char>, pos: nat, fuel: nat) -> (Seq<Tree>, nat)
    decreases fuel, p, s.len() + 1 - pos,
{
    if pos > s.len() {
        (seq![], pos)
    } else {
        match run(rules, p, s, pos, fuel) {
            Some((x, p1)) => if pos < p1 <= s.len() {
                let (xs, p2) = run_many(rules, p, s, p1, fuel);
                (seq![x] + xs, p2)
            } else {
                (seq![], pos)
            },
            None => (seq![], pos),
        }
    }
}

/// What parsing `input` with `c` gives: the result and the input that is
/// left, or `None` when it fails.
pub open spec fn parse_spec(rules: Seq<Option<Combinator>>, c: Combinator, input: Seq<char>) -> Option<(Tree, Seq<char>)> {
    match run(rules, c, input, 0, MAX_RULE_DEPTH as nat) {
        Some((t, p)) => Some((t, input.subrange(p as int, input.len() as int))),
        None => None,
    }
}

/// `r`, an executed parse from a position, agrees with `o`, its meaning.
pub open spec fn run_agrees(r: Option<(Parsed, usize)>, o: Option<(Tree, nat)>) -> bool {
    match r {
        Some((t, p)) => o == Some((t.tree(), p as nat)),
        None => o is None,
    }
}

/// `r`, the result of parsing a text, agrees with `o`, its meaning.
pub open spec fn parse_agrees(r: Result<(Parsed, &str), ()>, o: Option<(Tree, Seq<char>)>) -> bool {
    match r {
        Ok((t, rest)) => o == Some((t.tree(), rest@)),
        Err(_) => o is None,
    }
}

/// The parsers `ps` tried in order, then `tail`.
pub open spec fn choice_onto(ps: Seq<Combinator>, tail: Combinator) -> Combinator
    decreases ps.len(),
{
    if ps.len() == 0 {
        tail
    } else {
        Combinator::Or(Box::new(ps[0]), Box::new(choice_onto(ps.drop_first(), tail)))
    }
}

/// The parsers `ps` tried in order; the first success is the result.
pub open spec fn choice_of(ps: Seq<Combinator>) -> Combinator {
    choice_onto(ps, Combinator::Fail)
}

/// One parser for each of `cs`, tried in order.
pub open spec fn any_of_spec(cs: Seq<char>) -> Combinator
    decreases cs.len(),
{
    if cs.len() == 0 {
        Combinator::Fail
    } else {
        Combinator::Or(Box::new(Combinator::Char(cs[0])), Box::new(any_of_spec(cs.drop_first())))
    }
}

/// The characters that `ws` and `ws1` skip.
pub open spec fn whitespace_chars() -> Seq<char> {
    seq![' ', '\t', '\n', '\r']
}

pub proof fn lemma_choice_onto_last(ps: Seq<Combinator>, tail: Combinator)
    requires
        ps.len() > 0,
    ensures
        choice_onto(ps, tail) == choice_onto(ps.drop_last(), Combinator::Or(Box::new(ps.last()), Box::new(tail))),
    decreases ps.len(),
{
    if ps.len() == 1 {
        assert(ps.drop_first() =~= Seq::<Combinator>::empty());
        assert(ps.drop_last() =~= Seq::<Combinator>::empty());
        assert(choice_onto(ps.drop_first(), tail) == tail);
        assert(choice_onto(ps.drop_last(), Combinator::Or(Box::new(ps.last()), Box::new(tail)))
            == Combinator::Or(Box::new(ps.last()), Box::new(tail)));
    } else {
        let x = Combinator::Or(Box::new(ps.last()), Box::new(tail));
        lemma_choice_onto_last(ps.drop_first(), tail);
        assert(ps.drop_first().drop_last() =~= ps.drop_last().drop_first());
        assert(ps.drop_first().last() == ps.last());
        assert(ps.drop_last()[0] == ps[0]);
        assert(choice_onto(ps.drop_last(), x) == Combinator::Or(
            Box::new(ps.drop_last()[0]),
            Box::new(choice_onto(ps.drop_last().drop_first(), x)),
        ));
    }
}

/// Relies on `String::push`: it appends one character.
#[verifier::external_body]
fn push_char(s: &mut String, c: char)
    ensures
        final(s)@ == old(s)@.push(c),
{
    s.push(c);
}

fn apply(action: Action, p: Parsed) -> (r: Parsed)
    ensures
        r.tree() == apply_action(action, p.tree()),
{
    match action {
        Action::First => match p {
            Parsed::Pair(x, _) => *x,
            other => other,
        },
        Action::Second => match p {
            Parsed::Pair(_, y) => *y,
            other => other,
        },
        Action::Collect => match p {
            Parsed::List(v) => {
                let ghost xs = trees(v@);
                let mut text = String::new();
                let mut i: usize = 0;
                while i < v.len()
                    invariant
                        i <= v@.len(),
                        xs == trees(v@),
                        text@ == chars_of(xs.subrange(0, i as int)),
                    decreases v@.len() - i,
                {
                    assert(xs.subrange(0, i + 1).drop_last() =~= xs.subrange(0, i as int));
                    assert(xs.subrange(0, i + 1).last() == v@[i as int].tree());
                    match &v[i] {
                        Parsed::Char(c) => push_char(&mut text, *c),
                        _ => {},
                    }
                    i = i + 1;
                }
                assert(xs.subrange(0, i as int) =~= xs);
                Parsed::Text(text)
            },
            other => other,
        },
        Action::Bool(b) => Parsed::Bool(b),
        Action::Tag(k) => Parsed::Tagged(k, Box::new(p)),
    }
}

/// Whether `t` stands in `s` at `pos`.
fn text_at(s: &Vec<char>, pos: usize, t: &str) -> (r: bool)
    requires
        pos <= s@.len(),
    ensures
        r == (pos + t@.len() <= s.len() && s@.subrange(pos as int, pos + t@.len()) == t@),
{
    let ts = t;
    let n = ts.unicode_len();
    if n > s.len() - pos {
        return false;
    }
    let mut i: usize = 0;
    while i < n
        invariant
            ts@ == t@,
            n == t@.len(),
            pos + n <= s.len(),
            i <= n,
            s@.subrange(pos as int, pos + i) == t@.subrange(0, i as int),
        decreases n - i,
    {
        let c = ts.get_char(i);
        if s[pos + i] != c {
            assert(s@.subrange(pos as int, pos + n)[i as int] == s@[pos + i]);
            assert(s@.subrange(pos as int, pos + n)[i as int] != t@[i as int]);
            assert(!(s@.subrange(pos as int, pos + t@.len()) == t@));
            return false;
        }
        assert(s@.subrange(pos as int, pos + i + 1) =~= t@.subrange(0, i + 1));
        i = i + 1;
    }
    assert(t@.subrange(0, n as int) =~= t@);
    true
}

/// Runs `c` on `s` from `pos`, as `run` says.
fn run_parser(rules: &Vec<Option<Combinator>>, c: &Combinator, s: &Vec<char>, pos: usize, fuel: u64) -> (r: Option<(Parsed, usize)>)
    requires
        pos <= s@.len(),
    ensures
        run_agrees(r, run(rules@, *c, s@, pos as nat, fuel as nat)),
        r matches Some((_, p)) ==> p <= s@.len(),
    decreases fuel, c, 0nat,
{
    match c {
        Combinator::Char(ch) => {
            if pos < s.len() && s[pos] == *ch {
                Some((Parsed::Char(*ch), pos + 1))
            } else {
                None
            }
        },
        Combinator::Text(t) => {
            if text_at(s, pos, t) {
                let n = t.unicode_len();
                Some((Parsed::Text(String::from_str(t)), pos + n))
            } else {
                None
            }
        },
        Combinator::Then(a, b) => match run_parser(rules, a, s, pos, fuel) {
            Some((x, p1)) => match run_parser(rules, b, s, p1, fuel) {
                Some((y, p2)) => Some((Parsed::Pair(Box::new(x), Box::new(y)), p2)),
                None => None,
            },
            None => None,
        },
        Combinator::Or(a, b) => match run_parser(rules, a, s, pos, fuel) {
            Some(r) => Some(r),
            None => run_parser(rules, b, s, pos, fuel),
        },
        Combinator::Fail => None,
        Combinator::Mapped(p, action) => match run_parser(rules, p, s, pos, fuel) {
            Some((x, p1)) => Some((apply(*action, x), p1)),
            None => None,
        },
        Combinator::Optional(p) => match run_parser(rules, p, s, pos, fuel) {
            Some((x, p1)) => Some((Parsed::Maybe(Some(Box::new(x))), p1)),
            None => Some((Parsed::Maybe(None), pos)),
        },
        Combinator::Many(p) => {
            let (items, end) = run_repeated(rules, p, s, pos, fuel);
            Some((Parsed::List(items), end))
        },
        Combinator::Many1(p) => match run_parser(rules, p, s, pos, fuel) {
            Some((x, p1)) => {
                let (mut items, end) = run_repeated(rules, p, s, p1, fuel);
                let ghost rest = items@;
                items.insert(0, x);
                assert(trees(items@) =~= seq![x.tree()] + trees(rest));
                Some((Parsed::List(items), end))
            },
            None => None,
        },
        Combinator::Rule(k) => {
            if fuel > 0 && *k < rules.len() {
                match &rules[*k] {
                    Some(def) => run_parser(rules, def, s, pos, fuel - 1),
                    None => None,
                }
            } else {
                None
            }
        },
    }
}

/// Repeats `p` from `pos`, as `run_many` says.
fn run_repeated(rules: &Vec<Option<Combinator>>, p: &Combinator, s: &Vec<char>, pos: usize, fuel: u64) -> (r: (Vec<Parsed>, usize))
    requires
        pos <= s@.len(),
    ensures
        trees(r.0@) == run_many(rules@, *p, s@, pos as nat, fuel as nat).0,
        r.1 == run_many(rules@, *p, s@, pos as nat, fuel as nat).1,
        r.1 <= s@.len(),
    decreases fuel, p, s@.len() + 1 - pos,
{
    let ghost whole = run_many(rules@, *p, s@, pos as nat, fuel as nat);
    let mut items: Vec<Parsed> = Vec::new();
    let mut cur: usize = pos;
    assert(trees(items@) =~= Seq::<Tree>::empty());
    loop
        invariant
            pos <= cur <= s@.len(),
            whole == run_many(rules@, *p, s@, pos as nat, fuel as nat),
            whole.0 == trees(items@) + run_many(rules@, *p, s@, cur as nat, fuel as nat).0,
            whole.1 == run_many(rules@, *p, s@, cur as nat, fuel as nat).1,
        decreases s@.len() - cur,
    {
        match run_parser(rules, p, s, cur, fuel) {
            Some((x, p1)) => {
                if cur < p1 && p1 <= s.len() {
                    let ghost before = items@;
                    let ghost t = x.tree();
                    items.push(x);
                    assert(trees(items@) =~= trees(before).push(t));
                    assert(trees(before) + (seq![t] + run_many(rules@, *p, s@, p1 as nat, fuel as nat).0)
                        =~= trees(items@) + run_many(rules@, *p, s@, p1 as nat, fuel as nat).0);
                    cur = p1;
                } else {
                    assert(trees(items@) + Seq::<Tree>::empty() =~= trees(items@));
                    return (items, cur);
                }
            },
            None => {
                assert(trees(items@) + Seq::<Tree>::empty() =~= trees(items@));
                return (items, cur);
            },
        }
    }
}

/// The characters of `input`.
pub fn chars_of_str(input: &str) -> (r: Vec<char>)
    ensures
        r@ == input@,
{
    let n = input.unicode_len();
    let mut r: Vec<char> = Vec::new();
    let mut i: usize = 0;
    while i < n
        invariant
            n == input@.len(),
            i <= n,
            r@ == input@.subrange(0, i as int),
        decreases n - i,
    {
        r.push(input.get_char(i));
        assert(r@ =~= input@.subrange(0, i + 1));
        i = i + 1;
    }
    assert(input@.subrange(0, n as int) =~= input@);
    r
}

/// Parses `input` with `c`, looking rule references up in `rules`.
fn parse_with<'a>(rules: &Vec<Option<Combinator>>, c: &Combinator, input: &'a str) -> (r: Result<(Parsed, &'a str), ()>)
    ensures
        parse_agrees(r, parse_spec(rules@, *c, input@)),
{
    let s = chars_of_str(input);
    match run_parser(rules, c, &s, 0, MAX_RULE_DEPTH) {
        Some((t, end)) => Ok((t, input.substring_char(end, s.len()))),
        None => Err(()),
    }
}

/// A parser.
pub trait Parser: Sized {
    /// The combinator that this parser stands for.
    spec fn combinator(&self) -> Combinator;

    /// This parser as a combinator.
    fn as_rc(self) -> (r: Combinator)
        ensures
            r == self.combinator(),
    ;

    /// Parses `input` with an empty rule table: the result and the input
    /// that is left, or `Err` when the parser does not match.
    fn parse<'a>(&self, input: &'a str) -> (r: Result<(Parsed, &'a str), ()>)
        ensures
            parse_agrees(r, parse_spec(seq![], self.combinator(), input@)),
    ;
}

impl Parser for Combinator {
    open spec fn combinator(&self) -> Combinator {
        *self
    }

    fn as_rc(self) -> (r: Combinator) {
        self
    }

    fn parse<'a>(&self, input: &'a str) -> (r: Result<(Parsed, &'a str), ()>) {
        let rules: Vec<Option<Combinator>> = Vec::new();
        parse_with(&rules, self, input)
    }
}

/// A parser declared before its definition: a slot of a rule table, bound
/// later with `Grammar::set_implementation`.
#[derive(Debug, Clone, Copy, PartialEq, Eq, Structural)]
pub struct ForwardParser {
    pub key: usize,
}

impl ForwardParser {
    /// The combinator that refers to this slot.
    pub fn as_rc(self) -> (r: Combinator)
        ensures
            r == Combinator::Rule(self.key),
    {
        Combinator::Rule(self.key)
    }

    /// Parses `input` with the definition that `grammar` binds to this slot,
    /// looking rule references up in `grammar`; fails while the slot is
    /// unbound. The definition runs with one level of rule nesting less than
    /// a parse from the top (see `lemma_bound_slot_parses_like_definition`).
    pub fn parse<'a>(&self, grammar: &Grammar, input: &'a str) -> (r: Result<(Parsed, &'a str), ()>)
        ensures
            parse_agrees(r, parse_spec(grammar.rules@, Combinator::Rule(self.key), input@)),
    {
        grammar.parse(&Combinator::Rule(self.key), input)
    }
}

/// A table of rules: the definitions of forward parsers, each bound once.
pub struct Grammar {
    pub rules: Vec<Option<Combinator>>,
}

impl Grammar {
    pub fn new() -> (r: Grammar)
        ensures
            r.rules@.len() == 0,
    {
        Grammar { rules: Vec::new() }
    }

    /// A new slot, not bound yet.
    pub fn forward(&mut self) -> (r: ForwardParser)
        ensures
            final(self).rules@ == old(self).rules@.push(None),
            r.key == old(self).rules@.len(),
    {
        let key = self.rules.len();
        self.rules.push(None);
        ForwardParser { key }
    }

    /// Binds `parser` to `definition`, if `parser` is a slot of this table
    /// that is not bound yet; a slot is bound at most once. Returns whether it
    /// was bound now.
    pub fn set_implementation(&mut self, parser: &ForwardParser, definition: Combinator) -> (r: bool)
        ensures
            r == (parser.key < old(self).rules@.len() && old(self).rules@[parser.key as int] is None),
            r ==> final(self).rules@ == old(self).rules@.update(parser.key as int, Some(definition)),
            !r ==> final(self).rules@ == old(self).rules@,
    {
        if parser.key < self.rules.len() {
            let unbound = match &self.rules[parser.key] {
                Some(_) => false,
                None => true,
            };
            if unbound {
                self.rules.set(parser.key, Some(definition));
            }
            unbound
        } else {
            false
        }
    }

    /// Parses `input` with `parser`, looking its rule references up here.
    pub fn parse<'a>(&self, parser: &Combinator, input: &'a str) -> (r: Result<(Parsed, &'a str), ()>)
        ensures
            parse_agrees(r, parse_spec(self.rules@, *parser, input@)),
    {
        parse_with(&self.rules, parser, input)
    }
}

/// A new slot of `grammar`, to be bound later.
pub fn forward(grammar: &mut Grammar) -> (r: ForwardParser)
    ensures
        final(grammar).rules@ == old(grammar).rules@.push(None),
        r.key == old(grammar).rules@.len(),
{
    grammar.forward()
}

/// The parser of the character `c`.
pub fn pchar(c: char) -> (r: Combinator)
    ensures
        r == Combinator::Char(c),
{
    Combinator::Char(c)
}

/// The parser of the text `string`.
pub fn pstring(string: &'static str) -> (r: Combinator)
    ensures
        r == Combinator::Text(string),
{
    Combinator::Text(string)
}

/// `parser_a`, then `parser_b`; the result is the pair of theirs.
pub fn and_then(parser_a: Combinator, parser_b: Combinator) -> (r: Combinator)
    ensures
        r == Combinator::Then(Box::new(parser_a), Box::new(parser_b)),
{
    Combinator::Then(Box::new(parser_a), Box::new(parser_b))
}

/// `parsers` tried in order on the same input: the first success is the
/// result; it fails when all of them fail.
pub fn choice(parsers: Vec<Combinator>) -> (r: Combinator)
    ensures
        r == choice_of(parsers@),
{
    let ghost all = parsers@;
    let mut parsers = parsers;
    let mut acc = Combinator::Fail;
    while parsers.len() > 0
        invariant
            choice_of(all) == choice_onto(parsers@, acc),
        decreases parsers@.len(),
    {
        proof {
            lemma_choice_onto_last(parsers@, acc);
        }
        let p = parsers.pop().unwrap();
        acc = Combinator::Or(Box::new(p), Box::new(acc));
    }
    acc
}

/// One of `chars`, tried in order.
pub fn any_of(chars: &[char]) -> (r: Combinator)
    ensures
        r == any_of_spec(chars@),
{
    let n = chars.len();
    let mut acc = Combinator::Fail;
    let mut i: usize = n;
    assert(chars@.subrange(n as int, n as int) =~= Seq::<char>::empty());
    while i > 0
        invariant
            n == chars@.len(),
            i <= n,
            acc == any_of_spec(chars@.subrange(i as int, n as int)),
        decreases i,
    {
        assert(chars@.subrange(i - 1, n as int).drop_first() =~= chars@.subrange(i as int, n as int));
        let c = chars[i - 1];
        acc = Combinator::Or(Box::new(pchar(c)), Box::new(acc));
        i = i - 1;
    }
    assert(chars@.subrange(0, n as int) =~= chars@);
    acc
}

/// The parser of one whitespace character.
fn whitespace() -> (r: Combinator)
    ensures
        r == any_of_spec(whitespace_chars()),
{
    let chars = vec![' ', '\t', '\n', '\r'];
    assert(chars@ =~= whitespace_chars());
    any_of(chars.as_slice())
}

impl Combinator {
    /// This parser with its result transformed by `action`.
    pub fn map(self, action: Action) -> (r: Combinator)
        ensures
            r == Combinator::Mapped(Box::new(self), action),
    {
        Combinator::Mapped(Box::new(self), action)
    }

    /// This parser, or nothing: never fails, and consumes nothing when this
    /// parser does not match.
    pub fn optional(self) -> (r: Combinator)
        ensures
            r == Combinator::Optional(Box::new(self)),
    {
        Combinator::Optional(Box::new(self))
    }

    /// This parser, else `other` on the same input.
    pub fn or(self, other: Combinator) -> (r: Combinator)
        ensures
            r == Combinator::Or(Box::new(self), Box::new(other)),
    {
        Combinator::Or(Box::new(self), Box::new(other))
    }

    /// This parser, then `other`; the result is the pair of theirs.
    pub fn and_then(self, other: Combinator) -> (r: Combinator)
        ensures
            r == Combinator::Then(Box::new(self), Box::new(other)),
    {
        and_then(self, other)
    }

    /// This parser as often as it matches, zero times or more.
    pub fn many(self) -> (r: Combinator)
        ensures
            r == Combinator::Many(Box::new(self)),
    {
        Combinator::Many(Box::new(self))
    }

    /// This parser as often as it matches, at least once.
    pub fn many1(self) -> (r: Combinator)
        ensures
            r == Combinator::Many1(Box::new(self)),
    {
        Combinator::Many1(Box::new(self))
    }

    /// This parser, then `other`; the result is this parser's.
    pub fn left(self, other: Combinator) -> (r: Combinator)
        ensures
            r == Combinator::Mapped(Box::new(Combinator::Then(Box::new(self), Box::new(other))), Action::First),
    {
        self.and_then(other).map(Action::First)
    }

    /// This parser, then `other`; the result is `other`'s.
    pub fn right(self, other: Combinator) -> (r: Combinator)
        ensures
            r == Combinator::Mapped(Box::new(Combinator::Then(Box::new(self), Box::new(other))), Action::Second),
    {
        self.and_then(other).map(Action::Second)
    }

    /// `left`, this parser, then `right`; the result is this parser's.
    pub fn between(self, left: Combinator, right: Combinator) -> (r: Combinator)
        ensures
            r == Combinator::Mapped(
                Box::new(Combinator::Then(
                    Box::new(left),
                    Box::new(Combinator::Mapped(
                        Box::new(Combinator::Then(Box::new(self), Box::new(right))),
                        Action::First,
                    )),
                )),
                Action::Second,
            ),
    {
        left.right(self.left(right))
    }

    /// This parser, then any whitespace.
    pub fn ws(self) -> (r: Combinator)
        ensures
            r == Combinator::Mapped(
                Box::new(Combinator::Then(
                    Box::new(self),
                    Box::new(Combinator::Many(Box::new(any_of_spec(whitespace_chars())))),
                )),
                Action::First,
            ),
    {
        self.left(whitespace().many())
    }

    /// This parser, then at least one whitespace character.
    pub fn ws1(self) -> (r: Combinator)
        ensures
            r == Combinator::Mapped(
                Box::new(Combinator::Then(
                    Box::new(self),
                    Box::new(Combinator::Many1(Box::new(any_of_spec(whitespace_chars())))),
                )),
                Action::First,
            ),
    {
        self.left(whitespace().many1())
    }
}

/// Ordered choice: when the first alternative matches, `choice` gives its
/// result, whatever the later ones would give.
pub proof fn lemma_ordered_choice(
    rules: Seq<Option<Combinator>>,
    first: Combinator,
    rest: Seq<Combinator>,
    input: Seq<char>,
)
    requires
        parse_spec(rules, first, input) is Some,
    ensures
        parse_spec(rules, choice_of(seq![first] + rest), input) == parse_spec(rules, first, input),
{
    let ps = seq![first] + rest;
    assert(ps[0] == first);
    assert(ps.drop_first() =~= rest);
}

/// `or` is ordered too: when `a` matches, `a.or(b)` gives its result.
pub proof fn lemma_or_prefers_first(rules: Seq<Option<Combinator>>, a: Combinator, b: Combinator, input: Seq<char>)
    requires
        parse_spec(rules, a, input) is Some,
    ensures
        parse_spec(rules, Combinator::Or(Box::new(a), Box::new(b)), input) == parse_spec(rules, a, input),
{
}

/// An optional parser whose parser does not match succeeds with nothing and
/// leaves the whole input, so that a parser after it sees all of it.
pub proof fn lemma_optional_keeps_input(
    rules: Seq<Option<Combinator>>,
    p: Combinator,
    next: Combinator,
    input: Seq<char>,
)
    requires
        parse_spec(rules, p, input) is None,
    ensures
        parse_spec(rules, Combinator::Optional(Box::new(p)), input) == Some((Tree::Maybe(None), input)),
        parse_spec(rules, Combinator::Then(Box::new(Combinator::Optional(Box::new(p))), Box::new(next)), input)
            == match parse_spec(rules, next, input) {
                Some((t, rest)) => Some((Tree::Pair(Box::new(Tree::Maybe(None)), Box::new(t)), rest)),
                None => None,
            },
{
    assert(input.subrange(0, input.len() as int) =~= input);
}

/// `many` never fails.
pub proof fn lemma_many_never_fails(rules: Seq<Option<Combinator>>, p: Combinator, input: Seq<char>)
    ensures
        parse_spec(rules, Combinator::Many(Box::new(p)), input) is Some,
{
}

/// A sequence fails as a whole when its second part fails after the first:
/// no partial result and no partial consumption is visible.
pub proof fn lemma_then_all_or_nothing(
    rules: Seq<Option<Combinator>>,
    a: Combinator,
    b: Combinator,
    input: Seq<char>,
)
    requires
        run(rules, a, input, 0, MAX_RULE_DEPTH as nat) matches Some((_, p))
            && run(rules, b, input, p, MAX_RULE_DEPTH as nat) is None,
    ensures
        parse_spec(rules, Combinator::Then(Box::new(a), Box::new(b)), input) is None,
{
}

/// A slot bound to `definition` parses as `definition` does, with one level
/// of rule nesting less: the two agree on every input that the definition
/// parses within `MAX_RULE_DEPTH - 1` nested rule references.
pub proof fn lemma_bound_slot_parses_like_definition(
    rules: Seq<Option<Combinator>>,
    key: usize,
    definition: Combinator,
    input: Seq<char>,
    pos: nat,
    fuel: nat,
)
    requires
        key < rules.len(),
        rules[key as int] == Some(definition),
    ensures
        run(rules, Combinator::Rule(key), input, pos, fuel + 1) == run(rules, definition, input, pos, fuel),
        parse_spec(rules, Combinator::Rule(key), input) == match run(
            rules,
            definition,
            input,
            0,
            (MAX_RULE_DEPTH - 1) as nat,
        ) {
            Some((t, p)) => Some((t, input.subrange(p as int, input.len() as int))),
            None => None,
        },
{
    assert(MAX_RULE_DEPTH as nat == ((MAX_RULE_DEPTH - 1) as nat) + 1);
}

/// An unbound slot fails on every input.
pub proof fn lemma_unbound_slot_fails(rules: Seq<Option<Combinator>>, key: usize, input: Seq<char>)
    requires
        key >= rules.len() || rules[key as int] is None,
    ensures
        parse_spec(rules, Combinator::Rule(key), input) is None,
{
}

/// `any_of(cs)` matches the next character exactly when it is one of `cs`,
/// and then consumes that one character.
pub proof fn lemma_any_of(rules: Seq<Option<Combinator>>, cs: Seq<char>, s: Seq<char>, pos: nat, fuel: nat)
    ensures
        run(rules, any_of_spec(cs), s, pos, fuel) == if pos < s.len() && cs.contains(s[pos as int]) {
            Some((Tree::Char(s[pos as int]), pos + 1))
        } else {
            None::<(Tree, nat)>
        },
    decreases cs.len(),
{
    if cs.len() == 0 {
        if pos < s.len() {
            assert(!cs.contains(s[pos as int]));
        }
    } else {
        let rest = cs.drop_first();
        lemma_any_of(rules, rest, s, pos, fuel);
        assert(run(rules, Combinator::Char(cs[0]), s, pos, fuel) == if pos < s.len() && s[pos as int] == cs[0] {
            Some((Tree::Char(cs[0]), pos + 1))
        } else {
            None::<(Tree, nat)>
        });
        if pos < s.len() {
            let c = s[pos as int];
            if cs[0] != c {
                if cs.contains(c) {
                    let i = choose|i: int| 0 <= i < cs.len() && cs[i] == c;
                    assert(rest[i - 1] == c);
                }
                if rest.contains(c) {
                    let i = choose|i: int| 0 <= i < rest.len() && rest[i] == c;
                    assert(cs[i + 1] == c);
                }
            } else {
                assert(cs.contains(c));
            }
        }
    }
}

} // verus!

