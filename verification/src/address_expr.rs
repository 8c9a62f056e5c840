//! Address expressions: numbers, module bases, signatures, sums, differences and dereferences.
use vstd::prelude::*;
use vstd::string::StrSliceExecFns;

use crate::modules::{eq_ignore_ascii_case, str_eq_ignore_ascii_case, ModuleInfo};
use crate::numbers::{chars_of, digits_value, parse_radix_range, trim_range, trimmed};

verus! {

/// Something only the running process can tell: the pointer stored at an address, or the
/// address a named signature resolves to.
pub enum Query {
    Read(u64),
    Signature(Seq<char>),
}

/// What evaluating (part of) an expression gives: a value, a failure, or a question that must
/// be answered before evaluation can go on.
pub enum Outcome {
    Val(u64),
    Fail,
    Ask(Query),
}

/// The character classes the parser scans runs of.
#[derive(Clone, Copy)]
pub enum CharClass {
    Space,
    Ident,
    Hex,
    Digit,
    NotClose,
}

/// ASCII white space as `u8::is_ascii_whitespace` has it.
pub open spec fn is_ascii_space(c: char) -> bool {
    c == ' ' || c == '\t' || c == '\n' || c == '\x0c' || c == '\r'
}

pub open spec fn is_ascii_alnum(c: char) -> bool {
    ('0' <= c && c <= '9') || ('a' <= c && c <= 'z') || ('A' <= c && c <= 'Z')
}

pub open spec fn is_hex_digit(c: char) -> bool {
    ('0' <= c && c <= '9') || ('a' <= c && c <= 'f') || ('A' <= c && c <= 'F')
}

pub open spec fn in_class(k: CharClass, c: char) -> bool {
    match k {
        CharClass::Space => is_ascii_space(c),
        CharClass::Ident => is_ascii_alnum(c) || c == '_',
        CharClass::Hex => is_hex_digit(c),
        CharClass::Digit => '0' <= c && c <= '9',
        CharClass::NotClose => c != '>',
    }
}

/// The length of the run of class `k` starting at `p`.
pub open spec fn run(cs: Seq<char>, p: int, k: CharClass) -> nat
    decreases cs.len() - p,
{
    if 0 <= p < cs.len() && in_class(k, cs[p]) {
        1 + run(cs, p + 1, k)
    } else {
        0
    }
}

/// The position after the white space at `p`.
pub open spec fn skip(cs: Seq<char>, p: int) -> int {
    p + run(cs, p, CharClass::Space)
}

/// Skips white space, then takes `ch` if it is next: whether it was, and the new position.
pub open spec fn consume(cs: Seq<char>, p: int, ch: char) -> (bool, int) {
    let q = skip(cs, p);
    if 0 <= q < cs.len() && cs[q] == ch {
        (true, q + 1)
    } else {
        (false, q)
    }
}

pub open spec fn fits(v: Option<nat>) -> Option<u64> {
    match v {
        Some(n) => if n <= u64::MAX { Some(n as u64) } else { None },
        None => None,
    }
}

/// A number at `p`: hex digits after `0x`/`0X`, or decimal digits.
pub open spec fn number(cs: Seq<char>, p: int) -> (Option<u64>, int) {
    let q = skip(cs, p);
    if 0 <= q && q + 1 < cs.len() && cs[q] == '0' && (cs[q + 1] == 'x' || cs[q + 1] == 'X') {
        let r = run(cs, q + 2, CharClass::Hex);
        if r == 0 {
            (None, q + 2)
        } else {
            (fits(digits_value(cs.subrange(q + 2, q + 2 + r), 16)), q + 2 + r)
        }
    } else {
        let r = run(cs, q, CharClass::Digit);
        if r == 0 {
            (None, q)
        } else {
            (fits(digits_value(cs.subrange(q, q + r), 10)), q + r)
        }
    }
}

/// The name a module is compared by: its base name, or the empty text when it has none.
pub open spec fn module_key(m: ModuleInfo) -> Seq<char> {
    match m.name {
        Some(n) => n@,
        None => Seq::empty(),
    }
}

/// The base address of the first module whose name matches `name` without ASCII case.
pub open spec fn module_base(mods: Seq<ModuleInfo>, name: Seq<char>) -> Option<u64>
    decreases mods.len(),
{
    if mods.len() == 0 {
        None
    } else if eq_ignore_ascii_case(module_key(mods[0]), name) {
        Some(mods[0].base_address)
    } else {
        module_base(mods.drop_first(), name)
    }
}

/// A module reference `<name>` at `p`.
pub open spec fn module_ref(cs: Seq<char>, mods: Seq<ModuleInfo>, p: int) -> (Option<u64>, int) {
    let (opened, q) = consume(cs, p, '<');
    if !opened {
        (None, q)
    } else {
        let e = q + run(cs, q, CharClass::NotClose);
        let (closed, q2) = consume(cs, e, '>');
        if !closed {
            (None, q2)
        } else {
            (module_base(mods, trimmed(cs.subrange(q, q2 - 1))), q2)
        }
    }
}

/// How a signature reference ended: resolved, not resolved, or waiting for its resolution.
pub enum SigRef {
    Found(u64),
    NotFound,
    Waiting(Seq<char>),
}

/// A signature reference `$name` at `p`, resolved by the next unused answer.
pub open spec fn sig_ref(cs: Seq<char>, ans: Seq<Option<u64>>, p: int, k: int) -> (SigRef, int, int) {
    let (dollar, q) = consume(cs, p, '$');
    if !dollar {
        (SigRef::NotFound, q, k)
    } else {
        let q1 = skip(cs, q);
        let r = run(cs, q1, CharClass::Ident);
        if r == 0 {
            (SigRef::NotFound, q1, k)
        } else if 0 <= k < ans.len() {
            match ans[k] {
                Some(v) => (SigRef::Found(v), q1 + r, k + 1),
                None => (SigRef::NotFound, q1 + r, k + 1),
            }
        } else {
            (SigRef::Waiting(cs.subrange(q1, q1 + r)), q1 + r, k)
        }
    }
}

/// A factor at `p`: `(expr)`, `[expr]` (the pointer stored there), `<module>`, `$signature`
/// or a number. Module and signature references that do not resolve fall through, at the
/// position they reached, to the later alternatives.
pub open spec fn factor(cs: Seq<char>, mods: Seq<ModuleInfo>, ans: Seq<Option<u64>>, p: int, k: int) -> (Outcome, int, int)
    decreases cs.len() - p, 1int,
{
    let q = skip(cs, p);
    let (paren, q1) = consume(cs, q, '(');
    if paren {
        let e = expr(cs, mods, ans, q1, k);
        match e.0 {
            Outcome::Val(v) => {
                let (closed, q2) = consume(cs, e.1, ')');
                if closed {
                    (Outcome::Val(v), q2, e.2)
                } else {
                    (Outcome::Fail, q2, e.2)
                }
            },
            _ => e,
        }
    } else {
        let (bracket, q3) = consume(cs, q1, '[');
        if bracket {
            let e = expr(cs, mods, ans, q3, k);
            match e.0 {
                Outcome::Val(addr) => {
                    let (closed, q4) = consume(cs, e.1, ']');
                    if !closed {
                        (Outcome::Fail, q4, e.2)
                    } else if 0 <= e.2 < ans.len() {
                        match ans[e.2] {
                            Some(v) => (Outcome::Val(v), q4, e.2 + 1),
                            None => (Outcome::Fail, q4, e.2 + 1),
                        }
                    } else {
                        (Outcome::Ask(Query::Read(addr)), q4, e.2)
                    }
                },
                _ => e,
            }
        } else {
            let (m, qm) = module_ref(cs, mods, q3);
            match m {
                Some(v) => (Outcome::Val(v), qm, k),
                None => {
                    let (s, qs, ks) = sig_ref(cs, ans, qm, k);
                    match s {
                        SigRef::Found(v) => (Outcome::Val(v), qs, ks),
                        SigRef::Waiting(name) => (Outcome::Ask(Query::Signature(name)), qs, ks),
                        SigRef::NotFound => {
                            let (n, qn) = number(cs, qs);
                            match n {
                                Some(v) => (Outcome::Val(v), qn, ks),
                                None => (Outcome::Fail, qn, ks),
                            }
                        },
                    }
                },
            }
        }
    }
}

/// An expression at `p`: a factor followed by any number of `+ factor` and `- factor`,
/// wrapping around 64 bits.
pub open spec fn expr(cs: Seq<char>, mods: Seq<ModuleInfo>, ans: Seq<Option<u64>>, p: int, k: int) -> (Outcome, int, int)
    decreases cs.len() - p, 2int,
{
    let t = factor(cs, mods, ans, p, k);
    match t.0 {
        Outcome::Val(v) => if p < t.1 <= cs.len() {
            expr_rest(cs, mods, ans, v, t.1, t.2)
        } else {
            (Outcome::Fail, t.1, t.2)
        },
        _ => t,
    }
}

/// The rest of an expression whose value so far is `acc`.
pub open spec fn expr_rest(cs: Seq<char>, mods: Seq<ModuleInfo>, ans: Seq<Option<u64>>, acc: u64, p: int, k: int) -> (Outcome, int, int)
    decreases cs.len() - p, 3int,
{
    let (plus, q1) = consume(cs, p, '+');
    if plus {
        let t = factor(cs, mods, ans, q1, k);
        match t.0 {
            Outcome::Val(v) => if p < t.1 <= cs.len() {
                expr_rest(cs, mods, ans, acc.wrapping_add(v), t.1, t.2)
            } else {
                (Outcome::Fail, t.1, t.2)
            },
            _ => t,
        }
    } else {
        let (minus, q2) = consume(cs, q1, '-');
        if minus {
            let t = factor(cs, mods, ans, q2, k);
            match t.0 {
                Outcome::Val(v) => if p < t.1 <= cs.len() {
                    expr_rest(cs, mods, ans, acc.wrapping_sub(v), t.1, t.2)
                } else {
                    (Outcome::Fail, t.1, t.2)
                },
                _ => t,
            }
        } else {
            (Outcome::Val(acc), q2, k)
        }
    }
}

/// The value of the whole text as an expression, given the answers to the questions asked so
/// far (in the order they were asked); trailing white space is allowed, anything else fails.
pub open spec fn evaluate(cs: Seq<char>, mods: Seq<ModuleInfo>, ans: Seq<Option<u64>>) -> Outcome {
    let e = expr(cs, mods, ans, 0, 0);
    match e.0 {
        Outcome::Val(v) => if skip(cs, e.1) >= cs.len() { Outcome::Val(v) } else { Outcome::Fail },
        _ => e.0,
    }
}

/// The result of evaluating an address expression.
#[derive(Debug, PartialEq, Eq)]
pub enum AddressEval {
    /// The expression's value.
    Value(u64),
    /// The text is not a valid expression, or something it refers to could not be resolved.
    Invalid,
    /// The pointer stored at this address is needed next.
    NeedsRead(u64),
    /// The address this signature resolves to is needed next.
    NeedsSignature(String),
}

impl View for AddressEval {
    type V = Outcome;

    open spec fn view(&self) -> Outcome {
        match self {
            AddressEval::Value(v) => Outcome::Val(*v),
            AddressEval::Invalid => Outcome::Fail,
            AddressEval::NeedsRead(a) => Outcome::Ask(Query::Read(*a)),
            AddressEval::NeedsSignature(s) => Outcome::Ask(Query::Signature(s@)),
        }
    }
}

fn char_in_class(c: char, k: CharClass) -> (r: bool)
    ensures
        r == in_class(k, c),
{
    match k {
        CharClass::Space => c == ' ' || c == '\t' || c == '\n' || c == '\x0c' || c == '\r',
        CharClass::Ident => ('0' <= c && c <= '9') || ('a' <= c && c <= 'z') || ('A' <= c && c <= 'Z') || c == '_',
        CharClass::Hex => ('0' <= c && c <= '9') || ('a' <= c && c <= 'f') || ('A' <= c && c <= 'F'),
        CharClass::Digit => '0' <= c && c <= '9',
        CharClass::NotClose => c != '>',
    }
}

/// The parser's input and the outside facts it consults.
struct Input<'a> {
    text: &'a str,
    cs: Vec<char>,
    modules: &'a [ModuleInfo],
    answers: &'a [Option<u64>],
}

/// The exec form of an outcome: a signature is named by its range in the text.
enum Step {
    Val(u64),
    Fail,
    AskRead(u64),
    AskSig(usize, usize),
}

impl<'a> Input<'a> {
    spec fn wf(&self) -> bool {
        self.cs@ == self.text@ && self.cs@.len() < usize::MAX
    }

    spec fn step_view(&self, s: Step) -> Outcome {
        match s {
            Step::Val(v) => Outcome::Val(v),
            Step::Fail => Outcome::Fail,
            Step::AskRead(a) => Outcome::Ask(Query::Read(a)),
            Step::AskSig(a, b) => Outcome::Ask(Query::Signature(self.cs@.subrange(a as int, b as int))),
        }
    }

    fn run_len(&self, p: usize, k: CharClass) -> (r: usize)
        requires
            self.wf(),
            p <= self.cs@.len(),
        ensures
            r == run(self.cs@, p as int, k),
            p + r <= self.cs@.len(),
    {
        let mut i = p;
        while i < self.cs.len() && char_in_class(self.cs[i], k)
            invariant
                self.wf(),
                p <= i <= self.cs@.len(),
                run(self.cs@, p as int, k) == (i - p) + run(self.cs@, i as int, k),
            decreases self.cs@.len() - i,
        {
            i = i + 1;
        }
        i - p
    }

    fn skip(&self, p: usize) -> (r: usize)
        requires
            self.wf(),
            p <= self.cs@.len(),
        ensures
            r == skip(self.cs@, p as int),
            p <= r <= self.cs@.len(),
    {
        p + self.run_len(p, CharClass::Space)
    }

    fn consume(&self, p: usize, ch: char) -> (r: (bool, usize))
        requires
            self.wf(),
            p <= self.cs@.len(),
        ensures
            r.0 == consume(self.cs@, p as int, ch).0,
            r.1 == consume(self.cs@, p as int, ch).1,
            p <= r.1 <= self.cs@.len(),
            r.0 ==> p < r.1,
    {
        let q = self.skip(p);
        if q < self.cs.len() && self.cs[q] == ch {
            (true, q + 1)
        } else {
            (false, q)
        }
    }
    fn digits(&self, a: usize, b: usize, radix: u64) -> (r: Option<u64>)
        requires
            self.wf(),
            a < b <= self.cs@.len(),
            radix == 10 || radix == 16,
            self.cs@[a as int] != '+',
        ensures
            r == fits(digits_value(self.cs@.subrange(a as int, b as int), radix as nat)),
    {
        let ghost s = self.cs@.subrange(a as int, b as int);
        assert(s[0] != '+');
        parse_radix_range(&self.cs, a, b, radix)
    }

    fn number(&self, p: usize) -> (r: (Option<u64>, usize))
        requires
            self.wf(),
            p <= self.cs@.len(),
        ensures
            (r.0, r.1 as int) == number(self.cs@, p as int),
            p <= r.1 <= self.cs@.len(),
            r.0 is Some ==> p < r.1,
    {
        let q = self.skip(p);
        if q + 1 < self.cs.len() && self.cs[q] == '0' && (self.cs[q + 1] == 'x' || self.cs[q + 1] == 'X') {
            let r = self.run_len(q + 2, CharClass::Hex);
            if r == 0 {
                (None, q + 2)
            } else {
                proof {
                    assert(in_class(CharClass::Hex, self.cs@[q + 2]));
                }
                (self.digits(q + 2, q + 2 + r, 16), q + 2 + r)
            }
        } else {
            let r = self.run_len(q, CharClass::Digit);
            if r == 0 {
                (None, q)
            } else {
                proof {
                    assert(in_class(CharClass::Digit, self.cs@[q as int]));
                }
                (self.digits(q, q + r, 10), q + r)
            }
        }
    }

    fn find_module(&self, name: &str) -> (r: Option<u64>)
        ensures
            r == module_base(self.modules@, name@),
    {
        let mut i: usize = 0;
        assert(self.modules@.skip(0) =~= self.modules@);
        while i < self.modules.len()
            invariant
                i <= self.modules@.len(),
                module_base(self.modules@, name@) == module_base(self.modules@.skip(i as int), name@),
            decreases self.modules@.len() - i,
        {
            proof {
                assert(self.modules@.skip(i as int).drop_first() =~= self.modules@.skip(i + 1));
            }
            let m = &self.modules[i];
            proof {
                reveal_strlit("");
                assert(self.modules@.skip(i as int)[0] == self.modules@[i as int]);
            }
            let hit = match &m.name {
                Some(n) => str_eq_ignore_ascii_case(n.as_str(), name),
                None => str_eq_ignore_ascii_case("", name),
            };
            if hit {
                return Some(m.base_address);
            }
            i = i + 1;
        }
        None
    }

    fn module_ref(&self, p: usize) -> (r: (Option<u64>, usize))
        requires
            self.wf(),
            p <= self.cs@.len(),
        ensures
            (r.0, r.1 as int) == module_ref(self.cs@, self.modules@, p as int),
            p <= r.1 <= self.cs@.len(),
            r.0 is Some ==> p < r.1,
    {
        let (opened, q) = self.consume(p, '<');
        if !opened {
            return (None, q);
        }
        let e = q + self.run_len(q, CharClass::NotClose);
        let (closed, q2) = self.consume(e, '>');
        if !closed {
            return (None, q2);
        }
        let (a, b) = trim_range(&self.cs, q, q2 - 1);
        let name = self.text.substring_char(a, b);
        (self.find_module(name), q2)
    }

    fn sig_ref(&self, p: usize, k: usize) -> (r: (Step, usize, usize))
        requires
            self.wf(),
            p <= self.cs@.len(),
            k <= self.answers@.len(),
        ensures
            r.0 is Val || r.0 is Fail || r.0 is AskSig,
            ({
                let sp = sig_ref(self.cs@, self.answers@, p as int, k as int);
                &&& r.1 == sp.1
                &&& r.2 == sp.2
                &&& match sp.0 {
                    SigRef::Found(v) => r.0 == Step::Val(v),
                    SigRef::NotFound => r.0 is Fail,
                    SigRef::Waiting(name) => self.step_view(r.0) == Outcome::Ask(Query::Signature(name)),
                }
            }),
            p <= r.1 <= self.cs@.len(),
            k <= r.2 <= self.answers@.len(),
            r.0 is Val ==> p < r.1,
            r.0 matches Step::AskSig(a, b) ==> a <= b <= self.cs@.len(),
    {
        let (dollar, q) = self.consume(p, '$');
        if !dollar {
            return (Step::Fail, q, k);
        }
        let q1 = self.skip(q);
        let r = self.run_len(q1, CharClass::Ident);
        if r == 0 {
            return (Step::Fail, q1, k);
        }
        if k < self.answers.len() {
            match self.answers[k] {
                Some(v) => (Step::Val(v), q1 + r, k + 1),
                None => (Step::Fail, q1 + r, k + 1),
            }
        } else {
            (Step::AskSig(q1, q1 + r), q1 + r, k)
        }
    }

    fn factor(&self, p: usize, k: usize) -> (r: (Step, usize, usize))
        requires
            self.wf(),
            p <= self.cs@.len(),
            k <= self.answers@.len(),
        ensures
            (self.step_view(r.0), r.1 as int, r.2 as int) == factor(self.cs@, self.modules@, self.answers@, p as int, k as int),
            p <= r.1 <= self.cs@.len(),
            k <= r.2 <= self.answers@.len(),
            r.0 is Val ==> p < r.1,
            r.0 matches Step::AskSig(a, b) ==> a <= b <= self.cs@.len(),
        decreases self.cs@.len() - p, 1int,
    {
        let q = self.skip(p);
        let (paren, q1) = self.consume(q, '(');
        if paren {
            let e = self.expr(q1, k);
            match e.0 {
                Step::Val(v) => {
                    let (closed, q2) = self.consume(e.1, ')');
                    if closed {
                        (Step::Val(v), q2, e.2)
                    } else {
                        (Step::Fail, q2, e.2)
                    }
                },
                _ => e,
            }
        } else {
            let (bracket, q3) = self.consume(q1, '[');
            if bracket {
                let e = self.expr(q3, k);
                match e.0 {
                    Step::Val(addr) => {
                        let (closed, q4) = self.consume(e.1, ']');
                        if !closed {
                            (Step::Fail, q4, e.2)
                        } else if e.2 < self.answers.len() {
                            match self.answers[e.2] {
                                Some(v) => (Step::Val(v), q4, e.2 + 1),
                                None => (Step::Fail, q4, e.2 + 1),
                            }
                        } else {
                            (Step::AskRead(addr), q4, e.2)
                        }
                    },
                    _ => e,
                }
            } else {
                let (m, qm) = self.module_ref(q3);
                match m {
                    Some(v) => (Step::Val(v), qm, k),
                    None => {
                        let (st, qs, ks) = self.sig_ref(qm, k);
                        match st {
                            Step::Fail => {
                                let (n, qn) = self.number(qs);
                                match n {
                                    Some(v) => (Step::Val(v), qn, ks),
                                    None => (Step::Fail, qn, ks),
                                }
                            },
                            _ => (st, qs, ks),
                        }
                    },
                }
            }
        }
    }

    fn expr(&self, p: usize, k: usize) -> (r: (Step, usize, usize))
        requires
            self.wf(),
            p <= self.cs@.len(),
            k <= self.answers@.len(),
        ensures
            (self.step_view(r.0), r.1 as int, r.2 as int) == expr(self.cs@, self.modules@, self.answers@, p as int, k as int),
            p <= r.1 <= self.cs@.len(),
            k <= r.2 <= self.answers@.len(),
            r.0 matches Step::AskSig(a, b) ==> a <= b <= self.cs@.len(),
        decreases self.cs@.len() - p, 2int,
    {
        let t = self.factor(p, k);
        let mut acc = match t.0 {
            Step::Val(v) => v,
            _ => {
                return t;
            },
        };
        let mut pos = t.1;
        let mut kk = t.2;
        loop
            invariant
                self.wf(),
                p < pos <= self.cs@.len(),
                k <= kk <= self.answers@.len(),
                expr(self.cs@, self.modules@, self.answers@, p as int, k as int)
                    == expr_rest(self.cs@, self.modules@, self.answers@, acc, pos as int, kk as int),
            decreases self.cs@.len() - pos,
        {
            let (plus, q1) = self.consume(pos, '+');
            if plus {
                let t2 = self.factor(q1, kk);
                match t2.0 {
                    Step::Val(v2) => {
                        acc = acc.wrapping_add(v2);
                        pos = t2.1;
                        kk = t2.2;
                    },
                    _ => {
                        return t2;
                    },
                }
            } else {
                let (minus, q2) = self.consume(q1, '-');
                if minus {
                    let t2 = self.factor(q2, kk);
                    match t2.0 {
                        Step::Val(v2) => {
                            acc = acc.wrapping_sub(v2);
                            pos = t2.1;
                            kk = t2.2;
                        },
                        _ => {
                            return t2;
                        },
                    }
                } else {
                    return (Step::Val(acc), q2, kk);
                }
            }
        }
    }
}

/// Evaluates an address expression such as `[<game.dll> + 0x10] - 8` or `$Player + 4`.
///
/// `modules` are the target's modules (a `<name>` is the base of the first whose name matches
/// without ASCII case). Questions only the process can answer — the pointer stored at an
/// address, the address a signature resolves to — are answered by `answers`, in the order they
/// are asked (`None` when they cannot be answered). When the next question has no answer yet,
/// it is returned; asking it and evaluating again with its answer appended continues.
pub fn eval_address_expr(input: &str, modules: &[ModuleInfo], answers: &[Option<u64>]) -> (r: AddressEval)
    requires
        input@.len() < usize::MAX,
    ensures
        r@ == evaluate(input@, modules@, answers@),
{
    let cs = chars_of(input);
    let inp = Input { text: input, cs, modules, answers };
    let e = inp.expr(0, 0);
    match e.0 {
        Step::Val(v) => {
            let end = inp.skip(e.1);
            if end >= inp.cs.len() {
                AddressEval::Value(v)
            } else {
                AddressEval::Invalid
            }
        },
        Step::Fail => AddressEval::Invalid,
        Step::AskRead(a) => AddressEval::NeedsRead(a),
        Step::AskSig(a, b) => AddressEval::NeedsSignature(input.substring_char(a, b).to_owned()),
    }
}

/// A run of class `k` from `p` covers exactly the `n` characters of that class that follow.
proof fn lemma_run_exact(cs: Seq<char>, p: int, k: CharClass, n: nat)
    requires
        0 <= p,
        p + n <= cs.len(),
        forall|i: int| p <= i < p + n ==> in_class(k, #[trigger] cs[i]),
        p + n == cs.len() || !in_class(k, cs[p + n]),
    ensures
        run(cs, p, k) == n,
    decreases n,
{
    if n > 0 {
        lemma_run_exact(cs, p + 1, k, (n - 1) as nat);
    }
}

/// A module reference `<name>` standing at `p` gives the base of the module named by the
/// trimmed name, and ends right after the `>`.
proof fn lemma_module_ref_at(cs: Seq<char>, mods: Seq<ModuleInfo>, p: int, name: Seq<char>)
    requires
        0 <= p,
        p + name.len() + 2 <= cs.len(),
        cs.subrange(p, p + name.len() + 2) == seq!['<'] + name + seq!['>'],
        forall|i: int| 0 <= i < name.len() ==> name[i] != '>',
    ensures
        module_ref(cs, mods, p) == (module_base(mods, trimmed(name)), p + name.len() + 2),
{
    let w = seq!['<'] + name + seq!['>'];
    let e = p + 1 + name.len();
    assert(cs[p] == w[0]);
    assert(cs[e] == w[name.len() + 1int]);
    assert forall|i: int| p + 1 <= i < e implies in_class(CharClass::NotClose, #[trigger] cs[i]) by {
        assert(cs[i] == w[i - p]);
        assert(w[i - p] == name[i - p - 1]);
    }
    lemma_run_exact(cs, p + 1, CharClass::NotClose, name.len());
    assert(run(cs, p, CharClass::Space) == 0);
    assert(run(cs, e, CharClass::Space) == 0);
    assert(cs.subrange(p + 1, e) =~= name) by {
        assert forall|i: int| 0 <= i < name.len() implies cs.subrange(p + 1, e)[i] == name[i] by {
            assert(cs[p + 1 + i] == w[i + 1]);
        }
    }
}

/// Every character is ASCII white space.
pub open spec fn spaces(s: Seq<char>) -> bool {
    forall|i: int| 0 <= i < s.len() ==> is_ascii_space(#[trigger] s[i])
}

/// White space `s` standing at `p`, followed by the end or by something else, is skipped.
proof fn lemma_skip_spaces(cs: Seq<char>, p: int, s: Seq<char>)
    requires
        0 <= p,
        p + s.len() <= cs.len(),
        cs.subrange(p, p + s.len()) == s,
        spaces(s),
        p + s.len() == cs.len() || !is_ascii_space(cs[p + s.len()]),
    ensures
        skip(cs, p) == p + s.len(),
{
    assert forall|i: int| p <= i < p + s.len() implies in_class(CharClass::Space, #[trigger] cs[i]) by {
        assert(cs[i] == cs.subrange(p, p + s.len())[i - p]);
        assert(is_ascii_space(s[i - p]));
    }
    lemma_run_exact(cs, p, CharClass::Space, s.len());
}

/// A module reference `<name>` (no `>` inside), with white space before and after it,
/// evaluates to the base address of the first module whose name matches the trimmed name
/// without ASCII case, and fails when there is none.
pub proof fn law_module_ref_gives_base(
    mods: Seq<ModuleInfo>,
    s0: Seq<char>,
    name: Seq<char>,
    s1: Seq<char>,
    ans: Seq<Option<u64>>,
)
    requires
        spaces(s0),
        spaces(s1),
        forall|i: int| 0 <= i < name.len() ==> name[i] != '>',
    ensures
        evaluate(s0 + (seq!['<'] + name + seq!['>']) + s1, mods, ans) == match module_base(mods, trimmed(name)) {
            Some(b) => Outcome::Val(b),
            None => Outcome::Fail,
        },
{
    let m = seq!['<'] + name + seq!['>'];
    let cs = s0 + m + s1;
    let n = cs.len() as int;
    let a = s0.len() as int;
    let pm = a + m.len();
    assert(cs.subrange(0, a) =~= s0);
    assert(cs.subrange(a, pm) =~= m);
    assert(cs.subrange(pm, n) =~= s1);
    assert(cs[a] == '<');
    lemma_skip_spaces(cs, 0, s0);
    lemma_skip_spaces(cs, pm, s1);
    lemma_module_ref_at(cs, mods, a, name);
    assert(run(cs, n, CharClass::Space) == 0);
    assert(run(cs, n, CharClass::Digit) == 0);
    assert(consume(cs, 0, '(') == (false, a));
    assert(consume(cs, a, '[') == (false, a));
    assert(consume(cs, pm, '+') == (false, n));
    assert(consume(cs, n, '-') == (false, n));
    let f = factor(cs, mods, ans, 0, 0);
    match module_base(mods, trimmed(name)) {
        Some(b) => {
            assert(f == (Outcome::Val(b), pm, 0int));
            assert(expr_rest(cs, mods, ans, b, pm, 0) == (Outcome::Val(b), n, 0int));
            assert(expr(cs, mods, ans, 0, 0) == (Outcome::Val(b), n, 0int));
        },
        None => {
            assert(consume(cs, pm, '$') == (false, n));
            assert(sig_ref(cs, ans, pm, 0) == (SigRef::NotFound, n, 0int));
            assert(number(cs, n) == (None::<u64>, n));
            assert(f == (Outcome::Fail, n, 0int));
            assert(expr(cs, mods, ans, 0, 0).0 == Outcome::Fail);
        },
    }
}

/// A signature reference `$name` (a non-empty run of letters, digits and `_`), with white
/// space before, after and between `$` and the name, asks for the signature's address;
/// given it, evaluates to it, and fails when it cannot be resolved.
pub proof fn law_signature_ref_gives_value(
    mods: Seq<ModuleInfo>,
    s0: Seq<char>,
    s1: Seq<char>,
    name: Seq<char>,
    s2: Seq<char>,
    ans: Seq<Option<u64>>,
)
    requires
        spaces(s0),
        spaces(s1),
        spaces(s2),
        name.len() > 0,
        forall|i: int| 0 <= i < name.len() ==> in_class(CharClass::Ident, #[trigger] name[i]),
    ensures
        evaluate(s0 + seq!['$'] + s1 + name + s2, mods, ans) == if ans.len() == 0 {
            Outcome::Ask(Query::Signature(name))
        } else {
            match ans[0] {
                Some(v) => Outcome::Val(v),
                None => Outcome::Fail,
            }
        },
{
    let cs = s0 + seq!['$'] + s1 + name + s2;
    let n = cs.len() as int;
    let a = s0.len() as int;
    let b1 = a + 1;
    let q1 = b1 + s1.len();
    let h = q1 + name.len();
    assert(cs.subrange(0, a) =~= s0);
    assert(cs.subrange(b1, q1) =~= s1);
    assert(cs.subrange(q1, h) =~= name);
    assert(cs.subrange(h, n) =~= s2);
    assert(cs[a] == '$');
    assert(cs[q1] == name[0]);
    lemma_skip_spaces(cs, 0, s0);
    lemma_skip_spaces(cs, b1, s1);
    lemma_skip_spaces(cs, h, s2);
    assert forall|i: int| q1 <= i < h implies in_class(CharClass::Ident, #[trigger] cs[i]) by {
        assert(cs[i] == cs.subrange(q1, h)[i - q1]);
    }
    if h < n {
        assert(cs[h] == s2[0]);
    }
    lemma_run_exact(cs, q1, CharClass::Ident, name.len());
    assert(run(cs, n, CharClass::Space) == 0);
    assert(run(cs, n, CharClass::Digit) == 0);
    assert(consume(cs, 0, '(') == (false, a));
    assert(consume(cs, a, '[') == (false, a));
    assert(consume(cs, a, '<') == (false, a));
    assert(module_ref(cs, mods, a) == (None::<u64>, a));
    assert(consume(cs, a, '$') == (true, b1));
    assert(consume(cs, h, '+') == (false, n));
    assert(consume(cs, n, '-') == (false, n));
    let f = factor(cs, mods, ans, 0, 0);
    if ans.len() == 0 {
        assert(sig_ref(cs, ans, a, 0) == (SigRef::Waiting(name), h, 0int));
        assert(f.0 == Outcome::Ask(Query::Signature(name)));
    } else {
        match ans[0] {
            Some(v) => {
                assert(sig_ref(cs, ans, a, 0) == (SigRef::Found(v), h, 1int));
                assert(f == (Outcome::Val(v), h, 1int));
                assert(expr_rest(cs, mods, ans, v, h, 1) == (Outcome::Val(v), n, 1int));
                assert(expr(cs, mods, ans, 0, 0) == (Outcome::Val(v), n, 1int));
            },
            None => {
                assert(sig_ref(cs, ans, a, 0) == (SigRef::NotFound, h, 1int));
                assert(number(cs, h) == (None::<u64>, n));
                assert(f.0 == Outcome::Fail);
            },
        }
    }
}

/// Where the parts of `<name> + 0x<digits>` stand in its text.
proof fn lemma_offset_text(
    s0: Seq<char>,
    name: Seq<char>,
    s1: Seq<char>,
    s2: Seq<char>,
    hex: Seq<char>,
    s3: Seq<char>,
)
    ensures
        ({
            let cs = s0 + (seq!['<'] + name + seq!['>']) + s1 + seq!['+'] + s2 + seq!['0', 'x'] + hex + s3;
            let a = s0.len() as int;
            let pm = a + name.len() + 2;
            let pp = pm + s1.len();
            let z = pp + 1 + s2.len();
            let h = z + 2 + hex.len();
            &&& cs.len() == h + s3.len()
            &&& cs.subrange(0, a) == s0
            &&& cs.subrange(a, pm) == seq!['<'] + name + seq!['>']
            &&& cs.subrange(pm, pp) == s1
            &&& cs.subrange(pp + 1, z) == s2
            &&& cs.subrange(z + 2, h) == hex
            &&& cs.subrange(h, h + s3.len()) == s3
            &&& cs[pp] == '+'
            &&& cs[z] == '0'
            &&& cs[z + 1] == 'x'
        }),
{
    let m = seq!['<'] + name + seq!['>'];
    let cs = s0 + m + s1 + seq!['+'] + s2 + seq!['0', 'x'] + hex + s3;
    let a = s0.len() as int;
    let pm = a + m.len();
    let pp = pm + s1.len();
    let z = pp + 1 + s2.len();
    let h = z + 2 + hex.len();
    assert(cs.subrange(0, a) =~= s0);
    assert(cs.subrange(a, pm) =~= m);
    assert(cs.subrange(pm, pp) =~= s1);
    assert(cs.subrange(pp + 1, z) =~= s2);
    assert(cs.subrange(z + 2, h) =~= hex);
    assert(cs.subrange(h, h + s3.len()) =~= s3);
}

/// A module reference plus a hex offset, `<name> + 0x<digits>`, with white space anywhere
/// between the parts, evaluates to the module's base plus the offset (wrapping around 64
/// bits); it fails when there is no such module or the offset does not fit in 64 bits.
pub proof fn law_module_plus_offset(
    mods: Seq<ModuleInfo>,
    s0: Seq<char>,
    name: Seq<char>,
    s1: Seq<char>,
    s2: Seq<char>,
    hex: Seq<char>,
    s3: Seq<char>,
    ans: Seq<Option<u64>>,
)
    requires
        spaces(s0),
        spaces(s1),
        spaces(s2),
        spaces(s3),
        forall|i: int| 0 <= i < name.len() ==> name[i] != '>',
        hex.len() > 0,
        forall|i: int| 0 <= i < hex.len() ==> is_hex_digit(#[trigger] hex[i]),
    ensures
        evaluate(
            s0 + (seq!['<'] + name + seq!['>']) + s1 + seq!['+'] + s2 + seq!['0', 'x'] + hex + s3,
            mods,
            ans,
        ) == match module_base(mods, trimmed(name)) {
            None => Outcome::Fail,
            Some(b) => match fits(digits_value(hex, 16)) {
                Some(off) => Outcome::Val(b.wrapping_add(off)),
                None => Outcome::Fail,
            },
        },
{
    lemma_offset_text(s0, name, s1, s2, hex, s3);
    let cs = s0 + (seq!['<'] + name + seq!['>']) + s1 + seq!['+'] + s2 + seq!['0', 'x'] + hex + s3;
    let a = s0.len() as int;
    let pm = a + name.len() + 2;
    let pp = pm + s1.len();
    let z = pp + 1 + s2.len();
    let h = z + 2 + hex.len();
    lemma_offset_parse(cs, mods, ans, s0, name, s1, s2, hex, s3, a, pm, pp, z, h);
}

proof fn lemma_offset_parse(
    cs: Seq<char>,
    mods: Seq<ModuleInfo>,
    ans: Seq<Option<u64>>,
    s0: Seq<char>,
    name: Seq<char>,
    s1: Seq<char>,
    s2: Seq<char>,
    hex: Seq<char>,
    s3: Seq<char>,
    a: int,
    pm: int,
    pp: int,
    z: int,
    h: int,
)
    requires
        spaces(s0),
        spaces(s1),
        spaces(s2),
        spaces(s3),
        forall|i: int| 0 <= i < name.len() ==> name[i] != '>',
        hex.len() > 0,
        forall|i: int| 0 <= i < hex.len() ==> is_hex_digit(#[trigger] hex[i]),
        a == s0.len(),
        pm == a + name.len() + 2,
        pp == pm + s1.len(),
        z == pp + 1 + s2.len(),
        h == z + 2 + hex.len(),
        cs.len() == h + s3.len(),
        cs.subrange(0, a) == s0,
        cs.subrange(a, pm) == seq!['<'] + name + seq!['>'],
        cs.subrange(pm, pp) == s1,
        cs.subrange(pp + 1, z) == s2,
        cs.subrange(z + 2, h) == hex,
        cs.subrange(h, h + s3.len()) == s3,
        cs[pp] == '+',
        cs[z] == '0',
        cs[z + 1] == 'x',
    ensures
        evaluate(cs, mods, ans) == match module_base(mods, trimmed(name)) {
            None => Outcome::Fail,
            Some(b) => match fits(digits_value(hex, 16)) {
                Some(off) => Outcome::Val(b.wrapping_add(off)),
                None => Outcome::Fail,
            },
        },
{
    let n = cs.len() as int;
    let q = pp + 1;
    let hs = z + 2;
    assert(cs[a] == cs.subrange(a, pm)[0]);
    lemma_skip_spaces(cs, 0, s0);
    lemma_skip_spaces(cs, pm, s1);
    lemma_skip_spaces(cs, q, s2);
    lemma_skip_spaces(cs, h, s3);
    lemma_module_ref_at(cs, mods, a, name);
    assert forall|i: int| hs <= i < h implies in_class(CharClass::Hex, #[trigger] cs[i]) by {
        assert(cs[i] == cs.subrange(hs, h)[i - hs]);
    }
    if h < n {
        assert(cs[h] == cs.subrange(h, n)[0]);
    }
    lemma_run_exact(cs, hs, CharClass::Hex, hex.len());
    assert(run(cs, n, CharClass::Space) == 0);
    assert(run(cs, pp, CharClass::Digit) == 0);
    assert(consume(cs, 0, '(') == (false, a));
    assert(consume(cs, a, '[') == (false, a));
    assert(consume(cs, pm, '+') == (true, q));
    assert(consume(cs, q, '(') == (false, z));
    assert(consume(cs, z, '[') == (false, z));
    assert(consume(cs, z, '<') == (false, z));
    assert(consume(cs, z, '$') == (false, z));
    assert(module_ref(cs, mods, z) == (None::<u64>, z));
    assert(sig_ref(cs, ans, z, 0) == (SigRef::NotFound, z, 0int));
    assert(cs.subrange(hs, hs + hex.len()) == hex);
    assert(number(cs, z) == (fits(digits_value(hex, 16)), h));
    assert(consume(cs, h, '+') == (false, n));
    assert(consume(cs, n, '-') == (false, n));
    let f = factor(cs, mods, ans, 0, 0);
    match module_base(mods, trimmed(name)) {
        Some(b) => {
            assert(f == (Outcome::Val(b), pm, 0int));
            let g = factor(cs, mods, ans, q, 0);
            match fits(digits_value(hex, 16)) {
                Some(off) => {
                    assert(g == (Outcome::Val(off), h, 0int));
                    assert(expr_rest(cs, mods, ans, b.wrapping_add(off), h, 0) == (Outcome::Val(b.wrapping_add(off)), n, 0int));
                    assert(expr_rest(cs, mods, ans, b, pm, 0) == (Outcome::Val(b.wrapping_add(off)), n, 0int));
                    assert(expr(cs, mods, ans, 0, 0) == (Outcome::Val(b.wrapping_add(off)), n, 0int));
                },
                None => {
                    assert(g.0 == Outcome::Fail);
                    assert(expr_rest(cs, mods, ans, b, pm, 0).0 == Outcome::Fail);
                    assert(expr(cs, mods, ans, 0, 0).0 == Outcome::Fail);
                },
            }
        },
        None => {
            assert(consume(cs, pm, '$') == (false, pp));
            assert(sig_ref(cs, ans, pm, 0) == (SigRef::NotFound, pp, 0int));
            assert(number(cs, pp) == (None::<u64>, pp));
            assert(f.0 == Outcome::Fail);
        },
    }
}

/// Dereferencing a module reference, `[<name>]`, asks for the pointer stored at the module's
/// base; given it, evaluates to it, and fails when it cannot be read or there is no such
/// module.
pub proof fn law_deref_reads_at_inner_value(mods: Seq<ModuleInfo>, name: Seq<char>, ans: Seq<Option<u64>>)
    requires
        forall|i: int| 0 <= i < name.len() ==> name[i] != '>',
    ensures
        evaluate(seq!['['] + (seq!['<'] + name + seq!['>']) + seq![']'], mods, ans) == match module_base(
            mods,
            trimmed(name),
        ) {
            None => Outcome::Fail,
            Some(b) => if ans.len() == 0 {
                Outcome::Ask(Query::Read(b))
            } else {
                match ans[0] {
                    Some(v) => Outcome::Val(v),
                    None => Outcome::Fail,
                }
            },
        },
{
    let inner = seq!['<'] + name + seq!['>'];
    let cs = seq!['['] + inner + seq![']'];
    let n = cs.len() as int;
    let q2 = n - 1;
    assert(cs.subrange(1, 1int + name.len() + 2) =~= inner);
    lemma_module_ref_at(cs, mods, 1, name);
    assert(cs[0] == '[');
    assert(cs[1] == '<');
    assert(cs[q2] == ']');
    assert(run(cs, 0, CharClass::Space) == 0);
    assert(run(cs, 1, CharClass::Space) == 0);
    assert(run(cs, q2, CharClass::Space) == 0);
    assert(run(cs, q2, CharClass::Digit) == 0);
    assert(run(cs, n, CharClass::Space) == 0);
    assert(consume(cs, 0, '(') == (false, 0int));
    assert(consume(cs, 0, '[') == (true, 1int));
    assert(consume(cs, 1, '(') == (false, 1int));
    assert(consume(cs, 1, '[') == (false, 1int));
    assert(consume(cs, q2, '+') == (false, q2));
    assert(consume(cs, q2, '-') == (false, q2));
    assert(consume(cs, q2, ')') == (false, q2));
    assert(consume(cs, q2, ']') == (true, n));
    let inner_f = factor(cs, mods, ans, 1, 0);
    match module_base(mods, trimmed(name)) {
        Some(b) => {
            assert(inner_f == (Outcome::Val(b), q2, 0int));
            assert(expr_rest(cs, mods, ans, b, q2, 0) == (Outcome::Val(b), q2, 0int));
            assert(expr(cs, mods, ans, 1, 0) == (Outcome::Val(b), q2, 0int));
            let f = factor(cs, mods, ans, 0, 0);
            if ans.len() == 0 {
                assert(f.0 == Outcome::Ask(Query::Read(b)));
            } else {
                match ans[0] {
                    Some(v) => {
                        assert(f == (Outcome::Val(v), n, 1int));
                        assert(expr_rest(cs, mods, ans, v, n, 1) == (Outcome::Val(v), n, 1int));
                        assert(expr(cs, mods, ans, 0, 0) == (Outcome::Val(v), n, 1int));
                    },
                    None => {
                        assert(f.0 == Outcome::Fail);
                    },
                }
            }
        },
        None => {
            assert(consume(cs, q2, '$') == (false, q2));
            assert(sig_ref(cs, ans, q2, 0) == (SigRef::NotFound, q2, 0int));
            assert(number(cs, q2) == (None::<u64>, q2));
            assert(inner_f.0 == Outcome::Fail);
            assert(expr(cs, mods, ans, 1, 0).0 == Outcome::Fail);
            assert(factor(cs, mods, ans, 0, 0).0 == Outcome::Fail);
        },
    }
}

/// `c` is `e` in square brackets.
spec fn bracketed(e: Seq<char>, c: Seq<char>) -> bool {
    &&& c.len() == e.len() + 2
    &&& c[0] == '['
    &&& c[e.len() + 1int] == ']'
    &&& forall|i: int| 0 <= i < e.len() ==> c[i + 1] == #[trigger] e[i]
}

proof fn lemma_bracketed(e: Seq<char>)
    ensures
        bracketed(e, seq!['['] + e + seq![']']),
{
    let c = seq!['['] + e + seq![']'];
    assert forall|i: int| 0 <= i < e.len() implies c[i + 1] == #[trigger] e[i] by {
        assert((seq!['['] + e)[i + 1] == e[i]);
    }
}

/// A run never reaches past the end of the text.
proof fn lemma_run_bound(cs: Seq<char>, p: int, k: CharClass)
    requires
        0 <= p <= cs.len(),
    ensures
        p + run(cs, p, k) <= cs.len(),
    decreases cs.len() - p,
{
    if p < cs.len() {
        lemma_run_bound(cs, p + 1, k);
    }
}

/// A run that stops before the end stops at a character outside its class.
proof fn lemma_run_stop(cs: Seq<char>, p: int, k: CharClass)
    requires
        0 <= p,
        p + run(cs, p, k) < cs.len(),
    ensures
        !in_class(k, cs[p + run(cs, p, k)]),
    decreases cs.len() - p,
{
    if in_class(k, cs[p]) {
        lemma_run_stop(cs, p + 1, k);
    }
}

/// Runs of any class but `NotClose` read the same inside the brackets.
proof fn lemma_run_shift(e: Seq<char>, c: Seq<char>, p: int, k: CharClass)
    requires
        bracketed(e, c),
        0 <= p <= e.len(),
        !(k is NotClose),
    ensures
        run(c, p + 1, k) == run(e, p, k),
    decreases e.len() - p,
{
    if p < e.len() {
        assert(c[p + 1] == e[p]);
        lemma_run_shift(e, c, p + 1, k);
    } else {
        assert(c[p + 1] == ']');
    }
}

/// A run of `NotClose` that stops at a `>` reads the same inside the brackets.
proof fn lemma_run_close_shift(e: Seq<char>, c: Seq<char>, p: int)
    requires
        bracketed(e, c),
        0 <= p,
        p + run(e, p, CharClass::NotClose) < e.len(),
    ensures
        run(c, p + 1, CharClass::NotClose) == run(e, p, CharClass::NotClose),
    decreases e.len() - p,
{
    assert(c[p + 1] == e[p]);
    if in_class(CharClass::NotClose, e[p]) {
        lemma_run_close_shift(e, c, p + 1);
    }
}

proof fn lemma_skip_shift(e: Seq<char>, c: Seq<char>, p: int)
    requires
        bracketed(e, c),
        0 <= p <= e.len(),
    ensures
        skip(c, p + 1) == skip(e, p) + 1,
        p <= skip(e, p) <= e.len(),
{
    lemma_run_shift(e, c, p, CharClass::Space);
    lemma_run_bound(e, p, CharClass::Space);
}

/// Taking a character reads the same inside the brackets, but for a `]` that is not there.
proof fn lemma_consume_shift(e: Seq<char>, c: Seq<char>, p: int, ch: char)
    requires
        bracketed(e, c),
        0 <= p <= e.len(),
        ch != ']' || consume(e, p, ch).0,
    ensures
        consume(c, p + 1, ch) == (consume(e, p, ch).0, consume(e, p, ch).1 + 1),
        p <= consume(e, p, ch).1 <= e.len(),
        consume(e, p, ch).0 ==> p < consume(e, p, ch).1,
{
    lemma_skip_shift(e, c, p);
    let q = skip(e, p);
    if q < e.len() {
        assert(c[q + 1] == e[q]);
    } else {
        assert(c[q + 1] == ']');
    }
}


proof fn lemma_number_shift(e: Seq<char>, c: Seq<char>, p: int)
    requires
        bracketed(e, c),
        0 <= p <= e.len(),
    ensures
        number(c, p + 1) == (number(e, p).0, number(e, p).1 + 1),
        p <= number(e, p).1 <= e.len(),
{
    lemma_skip_shift(e, c, p);
    let q = skip(e, p);
    if q < e.len() {
        assert(c[q + 1] == e[q]);
    }
    if q + 1 < e.len() {
        assert(c[q + 2] == e[q + 1]);
    } else if q + 1 == e.len() {
        assert(c[q + 2] == ']');
    }
    if 0 <= q && q + 1 < e.len() && e[q] == '0' && (e[q + 1] == 'x' || e[q + 1] == 'X') {
        lemma_run_shift(e, c, q + 2, CharClass::Hex);
        lemma_run_bound(e, q + 2, CharClass::Hex);
        let r = run(e, q + 2, CharClass::Hex);
        assert(c.subrange(q + 3, q + 3 + r) =~= e.subrange(q + 2, q + 2 + r)) by {
            assert forall|i: int| 0 <= i < r implies #[trigger] c.subrange(q + 3, q + 3 + r)[i] == e.subrange(q + 2, q + 2 + r)[i] by {
                assert(c[q + 3 + i] == e[q + 2 + i]);
            }
        }
    } else {
        lemma_run_shift(e, c, q, CharClass::Digit);
        lemma_run_bound(e, q, CharClass::Digit);
        let r = run(e, q, CharClass::Digit);
        assert(c.subrange(q + 1, q + 1 + r) =~= e.subrange(q, q + r)) by {
            assert forall|i: int| 0 <= i < r implies #[trigger] c.subrange(q + 1, q + 1 + r)[i] == e.subrange(q, q + r)[i] by {
                assert(c[q + 1 + i] == e[q + i]);
            }
        }
    }
}

/// A module reference opened at `p` whose `>` is missing from the text.
spec fn unclosed_module_ref(e: Seq<char>, p: int) -> bool {
    let (opened, q) = consume(e, p, '<');
    opened && q + run(e, q, CharClass::NotClose) >= e.len()
}

proof fn lemma_module_ref_shift(e: Seq<char>, c: Seq<char>, mods: Seq<ModuleInfo>, p: int)
    requires
        bracketed(e, c),
        0 <= p <= e.len(),
    ensures
        !unclosed_module_ref(e, p) ==> module_ref(c, mods, p + 1) == (module_ref(e, mods, p).0, module_ref(e, mods, p).1 + 1),
        unclosed_module_ref(e, p) ==> module_ref(e, mods, p) == (None::<u64>, e.len() as int),
        p <= module_ref(e, mods, p).1 <= e.len(),
{
    lemma_consume_shift(e, c, p, '<');
    let (opened, q) = consume(e, p, '<');
    if opened {
        lemma_run_bound(e, q, CharClass::NotClose);
        let end = q + run(e, q, CharClass::NotClose);
        if end < e.len() {
            lemma_run_close_shift(e, c, q);
            lemma_run_stop(e, q, CharClass::NotClose);
            assert(run(e, end, CharClass::Space) == 0);
            lemma_consume_shift(e, c, end, '>');
            assert(consume(e, end, '>') == (true, end + 1));
            assert(c.subrange(q + 1, end + 1) =~= e.subrange(q, end)) by {
                assert forall|i: int| 0 <= i < end - q implies #[trigger] c.subrange(q + 1, end + 1)[i] == e.subrange(q, end)[i] by {
                    assert(c[q + 1 + i] == e[q + i]);
                }
            }
        } else {
            assert(run(e, e.len() as int, CharClass::Space) == 0);
        }
    }
}

proof fn lemma_sig_ref_shift(e: Seq<char>, c: Seq<char>, ans: Seq<Option<u64>>, p: int, k: int)
    requires
        bracketed(e, c),
        0 <= p <= e.len(),
    ensures
        sig_ref(c, ans, p + 1, k) == (sig_ref(e, ans, p, k).0, sig_ref(e, ans, p, k).1 + 1, sig_ref(e, ans, p, k).2),
        p <= sig_ref(e, ans, p, k).1 <= e.len(),
{
    lemma_consume_shift(e, c, p, '$');
    let (dollar, q) = consume(e, p, '$');
    if dollar {
        lemma_skip_shift(e, c, q);
        let q1 = skip(e, q);
        lemma_run_shift(e, c, q1, CharClass::Ident);
        lemma_run_bound(e, q1, CharClass::Ident);
        let r = run(e, q1, CharClass::Ident);
        assert(c.subrange(q1 + 1, q1 + 1 + r) =~= e.subrange(q1, q1 + r)) by {
            assert forall|i: int| 0 <= i < r implies #[trigger] c.subrange(q1 + 1, q1 + 1 + r)[i] == e.subrange(q1, q1 + r)[i] by {
                assert(c[q1 + 1 + i] == e[q1 + i]);
            }
        }
    }
}


/// A parse result read inside the brackets: one position further on.
spec fn shifted(r: (Outcome, int, int)) -> (Outcome, int, int) {
    (r.0, r.1 + 1, r.2)
}

/// A factor that does not fail reads the same inside the brackets.
proof fn lemma_factor_shift(e: Seq<char>, c: Seq<char>, mods: Seq<ModuleInfo>, ans: Seq<Option<u64>>, p: int, k: int)
    requires
        bracketed(e, c),
        0 <= p <= e.len(),
        !(factor(e, mods, ans, p, k).0 is Fail),
    ensures
        factor(c, mods, ans, p + 1, k) == shifted(factor(e, mods, ans, p, k)),
        p <= factor(e, mods, ans, p, k).1 <= e.len(),
    decreases e.len() - p, 1int,
{
    lemma_skip_shift(e, c, p);
    let q = skip(e, p);
    lemma_consume_shift(e, c, q, '(');
    let (paren, q1) = consume(e, q, '(');
    if paren {
        lemma_expr_shift(e, c, mods, ans, q1, k);
        let x = expr(e, mods, ans, q1, k);
        if x.0 is Val {
            lemma_consume_shift(e, c, x.1, ')');
        }
    } else {
        lemma_consume_shift(e, c, q1, '[');
        let (bracket, q3) = consume(e, q1, '[');
        if bracket {
            lemma_expr_shift(e, c, mods, ans, q3, k);
            let x = expr(e, mods, ans, q3, k);
            if x.0 is Val {
                lemma_consume_shift(e, c, x.1, ']');
            }
        } else {
            lemma_module_ref_shift(e, c, mods, q3);
            if unclosed_module_ref(e, q3) {
                let n = e.len() as int;
                assert(run(e, n, CharClass::Space) == 0);
                assert(run(e, n, CharClass::Digit) == 0);
                assert(consume(e, n, '$') == (false, n));
                assert(sig_ref(e, ans, n, k) == (SigRef::NotFound, n, k));
                assert(number(e, n) == (None::<u64>, n));
            } else {
                let (m, qm) = module_ref(e, mods, q3);
                lemma_sig_ref_shift(e, c, ans, qm, k);
                let (sr, qs, ks) = sig_ref(e, ans, qm, k);
                lemma_number_shift(e, c, qs);
            }
        }
    }
}

/// An expression that does not fail reads the same inside the brackets.
proof fn lemma_expr_shift(e: Seq<char>, c: Seq<char>, mods: Seq<ModuleInfo>, ans: Seq<Option<u64>>, p: int, k: int)
    requires
        bracketed(e, c),
        0 <= p <= e.len(),
        !(expr(e, mods, ans, p, k).0 is Fail),
    ensures
        expr(c, mods, ans, p + 1, k) == shifted(expr(e, mods, ans, p, k)),
        p <= expr(e, mods, ans, p, k).1 <= e.len(),
    decreases e.len() - p, 2int,
{
    lemma_factor_shift(e, c, mods, ans, p, k);
    let t = factor(e, mods, ans, p, k);
    match t.0 {
        Outcome::Val(v) => {
            if p < t.1 <= e.len() {
                lemma_expr_rest_shift(e, c, mods, ans, v, t.1, t.2);
            }
        },
        _ => {},
    }
}

/// The rest of an expression that does not fail reads the same inside the brackets.
proof fn lemma_expr_rest_shift(
    e: Seq<char>,
    c: Seq<char>,
    mods: Seq<ModuleInfo>,
    ans: Seq<Option<u64>>,
    acc: u64,
    p: int,
    k: int,
)
    requires
        bracketed(e, c),
        0 <= p <= e.len(),
        !(expr_rest(e, mods, ans, acc, p, k).0 is Fail),
    ensures
        expr_rest(c, mods, ans, acc, p + 1, k) == shifted(expr_rest(e, mods, ans, acc, p, k)),
        p <= expr_rest(e, mods, ans, acc, p, k).1 <= e.len(),
    decreases e.len() - p, 3int,
{
    lemma_consume_shift(e, c, p, '+');
    let (plus, q1) = consume(e, p, '+');
    if plus {
        lemma_factor_shift(e, c, mods, ans, q1, k);
        let t = factor(e, mods, ans, q1, k);
        match t.0 {
            Outcome::Val(v) => {
                if p < t.1 <= e.len() {
                    lemma_expr_rest_shift(e, c, mods, ans, acc.wrapping_add(v), t.1, t.2);
                }
            },
            _ => {},
        }
    } else {
        lemma_consume_shift(e, c, q1, '-');
        let (minus, q2) = consume(e, q1, '-');
        if minus {
            lemma_factor_shift(e, c, mods, ans, q2, k);
            let t = factor(e, mods, ans, q2, k);
            match t.0 {
                Outcome::Val(v) => {
                    if p < t.1 <= e.len() {
                        lemma_expr_rest_shift(e, c, mods, ans, acc.wrapping_sub(v), t.1, t.2);
                    }
                },
                _ => {},
            }
        }
    }
}


/// How many answers evaluating the text as an expression uses.
pub open spec fn answers_used(cs: Seq<char>, mods: Seq<ModuleInfo>, ans: Seq<Option<u64>>) -> int {
    expr(cs, mods, ans, 0, 0).2
}

/// Dereferencing an expression, `[e]`: where `e` evaluates to an address, `[e]` asks for the
/// pointer stored there; given it, evaluates to it, and fails when it cannot be read. Where
/// `e` is still waiting for an answer, so is `[e]`. (An `e` that fails is left out: its text
/// may be closed by the added `]`, as in `[5`.)
#[verifier::rlimit(40)]
pub proof fn law_deref_reads_at_value(e: Seq<char>, mods: Seq<ModuleInfo>, ans: Seq<Option<u64>>)
    requires
        !(evaluate(e, mods, ans) is Fail),
    ensures
        evaluate(seq!['['] + e + seq![']'], mods, ans) == match evaluate(e, mods, ans) {
            Outcome::Val(v) => {
                let k = answers_used(e, mods, ans);
                if 0 <= k < ans.len() {
                    match ans[k] {
                        Some(w) => Outcome::Val(w),
                        None => Outcome::Fail,
                    }
                } else {
                    Outcome::Ask(Query::Read(v))
                }
            },
            other => other,
        },
{
    let c = seq!['['] + e + seq![']'];
    lemma_bracketed(e);
    let n = c.len() as int;
    let x = expr(e, mods, ans, 0, 0);
    lemma_expr_shift(e, c, mods, ans, 0, 0);
    assert(run(c, 0, CharClass::Space) == 0);
    assert(consume(c, 0, '(') == (false, 0int));
    assert(consume(c, 0, '[') == (true, 1int));
    assert(run(c, n, CharClass::Space) == 0);
    assert(consume(c, n, '+') == (false, n));
    assert(consume(c, n, '-') == (false, n));
    match x.0 {
        Outcome::Val(v) => {
            lemma_skip_shift(e, c, x.1);
            assert(skip(e, x.1) == e.len());
            assert(c[n - 1] == ']');
            assert(consume(c, x.1 + 1, ']') == (true, n));
            let f = factor(c, mods, ans, 0, 0);
            let k = x.2;
            if 0 <= k < ans.len() {
                match ans[k] {
                    Some(w) => {
                        assert(f == (Outcome::Val(w), n, k + 1));
                        assert(expr_rest(c, mods, ans, w, n, k + 1) == (Outcome::Val(w), n, k + 1));
                        assert(expr(c, mods, ans, 0, 0) == (Outcome::Val(w), n, k + 1));
                    },
                    None => {
                        assert(f.0 == Outcome::Fail);
                    },
                }
            } else {
                assert(f.0 == Outcome::Ask(Query::Read(v)));
            }
        },
        _ => {
            assert(factor(c, mods, ans, 0, 0).0 == x.0);
        },
    }
}


/// Every character is a decimal digit.
pub open spec fn decimal_digits(s: Seq<char>) -> bool {
    forall|i: int| 0 <= i < s.len() ==> '0' <= #[trigger] s[i] && s[i] <= '9'
}

/// A run of decimal digits (no `0x` before it), with white space around it, evaluates to its
/// base-ten value, and fails when that does not fit in 64 bits.
pub proof fn law_decimal_number(mods: Seq<ModuleInfo>, s0: Seq<char>, digits: Seq<char>, s1: Seq<char>, ans: Seq<Option<u64>>)
    requires
        spaces(s0),
        spaces(s1),
        digits.len() > 0,
        decimal_digits(digits),
    ensures
        evaluate(s0 + digits + s1, mods, ans) == match fits(digits_value(digits, 10)) {
            Some(v) => Outcome::Val(v),
            None => Outcome::Fail,
        },
{
    let cs = s0 + digits + s1;
    let n = cs.len() as int;
    let a = s0.len() as int;
    let h = a + digits.len();
    assert(cs.subrange(0, a) =~= s0);
    assert(cs.subrange(a, h) =~= digits);
    assert(cs.subrange(h, n) =~= s1);
    assert(cs[a] == digits[0]);
    lemma_skip_spaces(cs, 0, s0);
    lemma_skip_spaces(cs, h, s1);
    assert forall|i: int| a <= i < h implies in_class(CharClass::Digit, #[trigger] cs[i]) by {
        assert(cs[i] == cs.subrange(a, h)[i - a]);
    }
    if h < n {
        assert(cs[h] == cs.subrange(h, n)[0]);
    }
    if a + 1 < n {
        assert(in_class(CharClass::Digit, cs[a + 1]) || is_ascii_space(cs[a + 1])) by {
            if a + 1 < h {
            } else {
                assert(cs[a + 1] == cs.subrange(h, n)[0]);
            }
        }
    }
    lemma_run_exact(cs, a, CharClass::Digit, digits.len());
    assert(run(cs, n, CharClass::Space) == 0);
    assert(consume(cs, 0, '(') == (false, a));
    assert(consume(cs, a, '[') == (false, a));
    assert(consume(cs, a, '<') == (false, a));
    assert(module_ref(cs, mods, a) == (None::<u64>, a));
    assert(consume(cs, a, '$') == (false, a));
    assert(sig_ref(cs, ans, a, 0) == (SigRef::NotFound, a, 0int));
    assert(number(cs, a) == (fits(digits_value(digits, 10)), h));
    assert(consume(cs, h, '+') == (false, n));
    assert(consume(cs, n, '-') == (false, n));
    let f = factor(cs, mods, ans, 0, 0);
    match fits(digits_value(digits, 10)) {
        Some(v) => {
            assert(f == (Outcome::Val(v), h, 0int));
            assert(expr_rest(cs, mods, ans, v, h, 0) == (Outcome::Val(v), n, 0int));
            assert(expr(cs, mods, ans, 0, 0) == (Outcome::Val(v), n, 0int));
        },
        None => {
            assert(f.0 == Outcome::Fail);
        },
    }
}


/// Where the parts of `<name> + digits` stand in its text.
proof fn lemma_decimal_offset_text(s0: Seq<char>, name: Seq<char>, s1: Seq<char>, s2: Seq<char>, digits: Seq<char>, s3: Seq<char>)
    ensures
        ({
            let cs = s0 + (seq!['<'] + name + seq!['>']) + s1 + seq!['+'] + s2 + digits + s3;
            let a = s0.len() as int;
            let pm = a + name.len() + 2;
            let pp = pm + s1.len();
            let z = pp + 1 + s2.len();
            let h = z + digits.len();
            &&& cs.len() == h + s3.len()
            &&& cs.subrange(0, a) == s0
            &&& cs.subrange(a, pm) == seq!['<'] + name + seq!['>']
            &&& cs.subrange(pm, pp) == s1
            &&& cs.subrange(pp + 1, z) == s2
            &&& cs.subrange(z, h) == digits
            &&& cs.subrange(h, h + s3.len()) == s3
            &&& cs[pp] == '+'
        }),
{
    let m = seq!['<'] + name + seq!['>'];
    let cs = s0 + m + s1 + seq!['+'] + s2 + digits + s3;
    let a = s0.len() as int;
    let pm = a + m.len();
    let pp = pm + s1.len();
    let z = pp + 1 + s2.len();
    let h = z + digits.len();
    assert(cs.subrange(0, a) =~= s0);
    assert(cs.subrange(a, pm) =~= m);
    assert(cs.subrange(pm, pp) =~= s1);
    assert(cs.subrange(pp + 1, z) =~= s2);
    assert(cs.subrange(z, h) =~= digits);
    assert(cs.subrange(h, h + s3.len()) =~= s3);
}

/// A module reference plus a decimal offset, `<name> + digits`, with white space anywhere
/// between the parts, evaluates to the module's base plus the offset's base-ten value
/// (wrapping around 64 bits); it fails when there is no such module or the offset does not
/// fit in 64 bits.
pub proof fn law_module_plus_decimal(
    mods: Seq<ModuleInfo>,
    s0: Seq<char>,
    name: Seq<char>,
    s1: Seq<char>,
    s2: Seq<char>,
    digits: Seq<char>,
    s3: Seq<char>,
    ans: Seq<Option<u64>>,
)
    requires
        spaces(s0),
        spaces(s1),
        spaces(s2),
        spaces(s3),
        forall|i: int| 0 <= i < name.len() ==> name[i] != '>',
        digits.len() > 0,
        decimal_digits(digits),
    ensures
        evaluate(s0 + (seq!['<'] + name + seq!['>']) + s1 + seq!['+'] + s2 + digits + s3, mods, ans) == match module_base(
            mods,
            trimmed(name),
        ) {
            None => Outcome::Fail,
            Some(b) => match fits(digits_value(digits, 10)) {
                Some(off) => Outcome::Val(b.wrapping_add(off)),
                None => Outcome::Fail,
            },
        },
{
    lemma_decimal_offset_text(s0, name, s1, s2, digits, s3);
    let cs = s0 + (seq!['<'] + name + seq!['>']) + s1 + seq!['+'] + s2 + digits + s3;
    let a = s0.len() as int;
    let pm = a + name.len() + 2;
    let pp = pm + s1.len();
    let z = pp + 1 + s2.len();
    let h = z + digits.len();
    lemma_decimal_offset_parse(cs, mods, ans, s0, name, s1, s2, digits, s3, a, pm, pp, z, h);
}

proof fn lemma_decimal_offset_parse(
    cs: Seq<char>,
    mods: Seq<ModuleInfo>,
    ans: Seq<Option<u64>>,
    s0: Seq<char>,
    name: Seq<char>,
    s1: Seq<char>,
    s2: Seq<char>,
    digits: Seq<char>,
    s3: Seq<char>,
    a: int,
    pm: int,
    pp: int,
    z: int,
    h: int,
)
    requires
        spaces(s0),
        spaces(s1),
        spaces(s2),
        spaces(s3),
        forall|i: int| 0 <= i < name.len() ==> name[i] != '>',
        digits.len() > 0,
        decimal_digits(digits),
        a == s0.len(),
        pm == a + name.len() + 2,
        pp == pm + s1.len(),
        z == pp + 1 + s2.len(),
        h == z + digits.len(),
        cs.len() == h + s3.len(),
        cs.subrange(0, a) == s0,
        cs.subrange(a, pm) == seq!['<'] + name + seq!['>'],
        cs.subrange(pm, pp) == s1,
        cs.subrange(pp + 1, z) == s2,
        cs.subrange(z, h) == digits,
        cs.subrange(h, h + s3.len()) == s3,
        cs[pp] == '+',
    ensures
        evaluate(cs, mods, ans) == match module_base(mods, trimmed(name)) {
            None => Outcome::Fail,
            Some(b) => match fits(digits_value(digits, 10)) {
                Some(off) => Outcome::Val(b.wrapping_add(off)),
                None => Outcome::Fail,
            },
        },
{
    let n = cs.len() as int;
    let q = pp + 1;
    assert(cs[a] == cs.subrange(a, pm)[0]);
    assert(cs[z] == cs.subrange(z, h)[0]);
    lemma_skip_spaces(cs, 0, s0);
    lemma_skip_spaces(cs, pm, s1);
    lemma_skip_spaces(cs, q, s2);
    lemma_skip_spaces(cs, h, s3);
    lemma_module_ref_at(cs, mods, a, name);
    assert forall|i: int| z <= i < h implies in_class(CharClass::Digit, #[trigger] cs[i]) by {
        assert(cs[i] == cs.subrange(z, h)[i - z]);
    }
    if h < n {
        assert(cs[h] == cs.subrange(h, n)[0]);
    }
    if z + 1 < n {
        assert(cs[z + 1] != 'x' && cs[z + 1] != 'X') by {
            if z + 1 < h {
                assert(cs[z + 1] == cs.subrange(z, h)[1]);
            } else {
                assert(cs[z + 1] == cs.subrange(h, n)[0]);
            }
        }
    }
    lemma_run_exact(cs, z, CharClass::Digit, digits.len());
    assert(run(cs, n, CharClass::Space) == 0);
    assert(run(cs, pp, CharClass::Digit) == 0);
    assert(consume(cs, 0, '(') == (false, a));
    assert(consume(cs, a, '[') == (false, a));
    assert(consume(cs, pm, '+') == (true, q));
    assert(consume(cs, q, '(') == (false, z));
    assert(consume(cs, z, '[') == (false, z));
    assert(consume(cs, z, '<') == (false, z));
    assert(consume(cs, z, '$') == (false, z));
    assert(module_ref(cs, mods, z) == (None::<u64>, z));
    assert(sig_ref(cs, ans, z, 0) == (SigRef::NotFound, z, 0int));
    assert(number(cs, z) == (fits(digits_value(digits, 10)), h));
    assert(consume(cs, h, '+') == (false, n));
    assert(consume(cs, n, '-') == (false, n));
    let f = factor(cs, mods, ans, 0, 0);
    match module_base(mods, trimmed(name)) {
        Some(b) => {
            assert(f == (Outcome::Val(b), pm, 0int));
            let g = factor(cs, mods, ans, q, 0);
            match fits(digits_value(digits, 10)) {
                Some(off) => {
                    assert(g == (Outcome::Val(off), h, 0int));
                    assert(expr_rest(cs, mods, ans, b.wrapping_add(off), h, 0) == (Outcome::Val(b.wrapping_add(off)), n, 0int));
                    assert(expr_rest(cs, mods, ans, b, pm, 0) == (Outcome::Val(b.wrapping_add(off)), n, 0int));
                    assert(expr(cs, mods, ans, 0, 0) == (Outcome::Val(b.wrapping_add(off)), n, 0int));
                },
                None => {
                    assert(g.0 == Outcome::Fail);
                    assert(expr_rest(cs, mods, ans, b, pm, 0).0 == Outcome::Fail);
                    assert(expr(cs, mods, ans, 0, 0).0 == Outcome::Fail);
                },
            }
        },
        None => {
            assert(consume(cs, pm, '$') == (false, pp));
            assert(sig_ref(cs, ans, pm, 0) == (SigRef::NotFound, pp, 0int));
            assert(number(cs, pp) == (None::<u64>, pp));
            assert(f.0 == Outcome::Fail);
        },
    }
}

} // verus!
