//! Command arguments: splitting a command line into words and parsing
//! directions, instructions and numbers from them.

use vstd::prelude::*;
use crate::grid::Dir;
use crate::instruction::Instruction;

verus! {

/// Whether `c` has the Unicode `White_Space` property, as std decides it.
pub uninterp spec fn white_space(c: char) -> bool;

/// Relies on `char::is_whitespace`: the answer depends on the character
/// alone.
#[verifier::external_body]
fn is_blank(c: char) -> (r: bool)
    ensures
        r == white_space(c),
{
    c.is_whitespace()
}

/// The length of the run of non-blank characters that starts `s`.
pub open spec fn word_len(s: Seq<char>) -> nat
    decreases s.len(),
{
    if s.len() == 0 || white_space(s[0]) {
        0
    } else {
        1 + word_len(s.drop_first())
    }
}

/// The maximal runs of non-blank characters of `s`, in order.
pub open spec fn words(s: Seq<char>) -> Seq<Seq<char>>
    decreases s.len(),
    via words_decreases
{
    if s.len() == 0 {
        Seq::empty()
    } else if white_space(s[0]) {
        words(s.drop_first())
    } else {
        let n = word_len(s);
        seq![s.subrange(0, n as int)] + words(s.subrange(n as int, s.len() as int))
    }
}

#[via_fn]
proof fn words_decreases(s: Seq<char>) {
    lemma_word_len_bound(s);
}

proof fn lemma_word_len_bound(s: Seq<char>)
    ensures
        word_len(s) <= s.len(),
        s.len() > 0 && !white_space(s[0]) ==> word_len(s) > 0,
    decreases s.len(),
{
    if s.len() > 0 && !white_space(s[0]) {
        lemma_word_len_bound(s.drop_first());
    }
}

/// An argument error of a command.
pub enum Error {
    NoDirection,
    BadDirection,
    NoInstruction,
    BadInstruction,
    NoNumber,
    BadNumber,
    ZeroSpeed,
    NoPath,
    Extra(String),
}

impl Error {
    /// The message shown to the user.
    pub fn description(&self) -> (r: String)
        ensures
            self is NoDirection || self is BadDirection ==> r@ == "Expected one of < > ^ v."@,
            self is NoInstruction || self is BadInstruction ==> r@ == "Expected instruction."@,
            self is NoNumber ==> r@ == "Expected number."@,
            self is BadNumber ==> r@ == "Invalid number."@,
            self is ZeroSpeed ==> r@ == "Speed cannot be set to 0."@,
            self is NoPath ==> r@ == "Expected filepath."@,
            self matches Error::Extra(s) ==> r@ == "Unexpected argument '"@ + s@ + "'."@,
    {
        match self {
            Error::NoDirection => String::from_str("Expected one of < > ^ v."),
            Error::BadDirection => String::from_str("Expected one of < > ^ v."),
            Error::NoInstruction => String::from_str("Expected instruction."),
            Error::BadInstruction => String::from_str("Expected instruction."),
            Error::NoNumber => String::from_str("Expected number."),
            Error::BadNumber => String::from_str("Invalid number."),
            Error::ZeroSpeed => String::from_str("Speed cannot be set to 0."),
            Error::NoPath => String::from_str("Expected filepath."),
            Error::Extra(s) => {
                let mut r = String::from_str("Unexpected argument '");
                r.append(s.as_str());
                r.append("'.");
                r
            },
        }
    }
}

/// A command's arguments and the position reached in them.
pub struct Args<'a> {
    args: Vec<&'a str>,
    pos: usize,
}

impl<'a> Args<'a> {
    /// The words of the command.
    pub closed spec fn words(&self) -> Seq<Seq<char>> {
        self.args@.map_values(|a: &str| a@)
    }

    /// How many words have been taken.
    pub closed spec fn pos(&self) -> int {
        self.pos as int
    }

    pub open spec fn wf(&self) -> bool {
        0 <= self.pos() <= self.words().len()
    }

    /// The arguments of `c`: its words, split at blank characters.
    pub fn from_command(c: &'a str) -> (r: Args<'a>)
        ensures
            r.wf(),
            r.words() == words(c@),
            r.pos() == 0,
    {
        let n = c.unicode_len();
        let mut args: Vec<&'a str> = Vec::new();
        let mut i: usize = 0;
        proof {
            assert(c@.subrange(0, n as int) =~= c@);
            assert(args@.map_values(|a: &str| a@) + words(c@) =~= words(c@));
        }
        while i < n
            invariant
                n == c@.len(),
                i <= n,
                words(c@) == args@.map_values(|a: &str| a@) + words(c@.subrange(i as int, n as int)),
            decreases n - i,
        {
            let ghost t = c@.subrange(i as int, n as int);
            if is_blank(c.get_char(i)) {
                proof {
                    assert(t.drop_first() =~= c@.subrange(i + 1, n as int));
                }
                i = i + 1;
            } else {
                let mut j = i + 1;
                proof {
                    assert(t.drop_first() =~= c@.subrange(i + 1, n as int));
                }
                while j < n && !is_blank(c.get_char(j))
                    invariant
                        n == c@.len(),
                        i < j <= n,
                        word_len(t) == (j - i) + word_len(c@.subrange(j as int, n as int)),
                    decreases n - j,
                {
                    proof {
                        let u = c@.subrange(j as int, n as int);
                        assert(u.drop_first() =~= c@.subrange(j + 1, n as int));
                    }
                    j = j + 1;
                }
                proof {
                    let u = c@.subrange(j as int, n as int);
                    assert(word_len(u) == 0);
                    lemma_word_len_bound(t);
                    assert(t.subrange(0, (j - i) as int) =~= c@.subrange(i as int, j as int));
                    assert(t.subrange((j - i) as int, t.len() as int) =~= u);
                }
                let word = c.substring_char(i, j);
                let ghost before = args@.map_values(|a: &str| a@);
                args.push(word);
                proof {
                    assert(args@.map_values(|a: &str| a@) =~= before.push(word@));
                    assert(before.push(word@) + words(c@.subrange(j as int, n as int)) =~= before + (
                    seq![c@.subrange(i as int, j as int)] + words(c@.subrange(j as int, n as int))));
                }
                i = j;
            }
        }
        proof {
            assert(c@.subrange(n as int, n as int) =~= Seq::<char>::empty());
            assert(args@.map_values(|a: &str| a@) + Seq::<Seq<char>>::empty() =~= args@.map_values(
                |a: &str| a@,
            ));
        }
        Args { args, pos: 0 }
    }

    /// The next argument as it was written, if any remains.
    pub fn next_raw(&mut self) -> (r: Option<&'a str>)
        requires
            old(self).wf(),
        ensures
            final(self).wf(),
            final(self).words() == old(self).words(),
            old(self).pos() < old(self).words().len() ==> {
                &&& r matches Some(a) && a@ == old(self).words()[old(self).pos()]
                &&& final(self).pos() == old(self).pos() + 1
            },
            old(self).pos() == old(self).words().len() ==> r is None && final(self).pos() == old(
                self,
            ).pos(),
    {
        if self.pos < self.args.len() {
            let a = self.args[self.pos];
            self.pos = self.pos + 1;
            Some(a)
        } else {
            None
        }
    }

    /// How many arguments have been taken.
    pub fn position(&self) -> (r: usize)
        ensures
            r == self.pos(),
    {
        self.pos
    }

    /// No argument remains.
    pub fn is_end(&self) -> (r: bool)
        requires
            self.wf(),
        ensures
            r == (self.pos() == self.words().len()),
    {
        self.pos >= self.args.len()
    }

    /// Fails with the first remaining argument, if any remains.
    pub fn ensure_final(&self) -> (r: Result<(), Error>)
        requires
            self.wf(),
        ensures
            self.pos() == self.words().len() ==> r is Ok,
            self.pos() < self.words().len() ==> (r matches Err(Error::Extra(s)) && s@ == self.words()[self.pos()]),
    {
        if self.pos < self.args.len() {
            Err(Error::Extra(self.args[self.pos].to_owned()))
        } else {
            Ok(())
        }
    }
}

/// The value of a decimal numeral with an optional leading `+`, if it fits
/// in `max`.
pub open spec fn numeral_value(s: Seq<char>) -> int
    decreases s.len(),
{
    if s.len() == 0 {
        0
    } else {
        numeral_value(s.drop_last()) * 10 + (s.last() as int - '0' as int)
    }
}

/// `s` is one or more decimal digits.
pub open spec fn is_digits(s: Seq<char>) -> bool {
    s.len() > 0 && forall|i: int| 0 <= i < s.len() ==> '0' <= #[trigger] s[i] <= '9'
}

/// The digits of an unsigned numeral: `s` without one leading `+`.
pub open spec fn digits_of(s: Seq<char>) -> Seq<char> {
    if s.len() > 0 && s[0] == '+' {
        s.drop_first()
    } else {
        s
    }
}

proof fn lemma_numeral_nonneg(s: Seq<char>)
    requires
        forall|i: int| 0 <= i < s.len() ==> '0' <= #[trigger] s[i] <= '9',
    ensures
        numeral_value(s) >= 0,
    decreases s.len(),
{
    if s.len() > 0 {
        lemma_numeral_nonneg(s.drop_last());
    }
}

/// Parses an unsigned decimal numeral no greater than `max`: digits with
/// an optional leading `+`, as std's integer parsing accepts them.
pub fn parse_number(s: &str, max: u64) -> (r: Option<u64>)
    ensures
        r matches Some(v) ==> is_digits(digits_of(s@)) && v == numeral_value(digits_of(s@)) && v
            <= max,
        r is None ==> !is_digits(digits_of(s@)) || numeral_value(digits_of(s@)) > max,
{
    let n = s.unicode_len();
    let mut i: usize = 0;
    if n > 0 && s.get_char(0) == '+' {
        i = 1;
    }
    let ghost d = digits_of(s@);
    proof {
        assert(d =~= s@.subrange(i as int, n as int));
    }
    if i == n {
        proof {
            assert(d.len() == 0);
        }
        return None;
    }
    let mut value: u64 = 0;
    let start = i;
    while i < n
        invariant
            n == s@.len(),
            start <= i <= n,
            start < n,
            d == digits_of(s@),
            d =~= s@.subrange(start as int, n as int),
            forall|k: int| start <= k < i ==> '0' <= #[trigger] s@[k] <= '9',
            value as int == numeral_value(s@.subrange(start as int, i as int)),
            value <= max,
        decreases n - i,
    {
        let c = s.get_char(i);
        if c < '0' || c > '9' {
            proof {
                assert(d[i - start] == c);
                assert(!is_digits(d));
            }
            return None;
        }
        let digit = (c as u32 - '0' as u32) as u64;
        let ghost p = s@.subrange(start as int, i + 1);
        proof {
            assert(p.drop_last() =~= s@.subrange(start as int, i as int));
            assert(p.last() == c);
        }
        if value > max / 10 || digit > max - value * 10 {
            proof {
                assert(numeral_value(p) > max) by (nonlinear_arith)
                    requires
                        numeral_value(p) == value * 10 + digit,
                        value > max / 10 || digit > max - value * 10,
                        digit <= 9,
                        value >= 0,
                        max >= 0,
                ;
                if is_digits(d) {
                    assert(p =~= d.subrange(0, i + 1 - start));
                    lemma_numeral_grows(d, i + 1 - start);
                }
            }
            return None;
        }
        value = value * 10 + digit;
        i = i + 1;
    }
    proof {
        assert(s@.subrange(start as int, n as int) =~= d);
    }
    Some(value)
}

/// A numeral is worth at least any of its prefixes.
proof fn lemma_numeral_grows(s: Seq<char>, k: int)
    requires
        0 <= k <= s.len(),
        forall|i: int| 0 <= i < s.len() ==> '0' <= #[trigger] s[i] <= '9',
    ensures
        numeral_value(s) >= numeral_value(s.subrange(0, k)),
    decreases s.len(),
{
    if k < s.len() {
        let t = s.drop_last();
        assert(t.subrange(0, k) =~= s.subrange(0, k));
        lemma_numeral_grows(t, k);
        lemma_numeral_nonneg(t);
    } else {
        assert(s.subrange(0, k) =~= s);
    }
}

/// Something that can be parsed from the arguments of a command.
pub trait ParseArgs: Sized {
    fn from_args(args: &mut Args<'_>) -> (r: Result<Self, Error>)
        requires
            old(args).wf(),
        ensures
            final(args).wf(),
            final(args).words() == old(args).words(),
            final(args).pos() >= old(args).pos(),
    ;
}

/// Takes the next argument as a direction.
pub fn parse_dir(args: &mut Args<'_>) -> (r: Result<Dir, Error>)
    requires
        old(args).wf(),
    ensures
        final(args).wf(),
        final(args).words() == old(args).words(),
        final(args).pos() >= old(args).pos(),
        old(args).pos() == old(args).words().len() ==> r matches Err(Error::NoDirection),
        old(args).pos() < old(args).words().len() ==> {
            let w = old(args).words()[old(args).pos()];
            &&& final(args).pos() == old(args).pos() + 1
            &&& r matches Ok(d) ==> w == seq![d.glyph()]
            &&& r matches Err(e) ==> e is BadDirection && forall|d: Dir| w != seq![d.glyph()]
            &&& (r is Ok || r is Err)
        },
{
    match args.next_raw() {
        None => Err(Error::NoDirection),
        Some(a) => match Dir::from_str(a) {
            Some(d) => Ok(d),
            None => Err(Error::BadDirection),
        },
    }
}

/// Takes the next argument as an instruction symbol.
pub fn parse_instruction(args: &mut Args<'_>) -> (r: Result<Instruction, Error>)
    requires
        old(args).wf(),
    ensures
        final(args).wf(),
        final(args).words() == old(args).words(),
        final(args).pos() >= old(args).pos(),
        old(args).pos() == old(args).words().len() ==> r matches Err(Error::NoInstruction),
        old(args).pos() < old(args).words().len() ==> {
            let w = old(args).words()[old(args).pos()];
            &&& final(args).pos() == old(args).pos() + 1
            &&& r matches Ok(i) ==> w == seq![i.symbol().0, i.symbol().1]
            &&& r matches Err(e) ==> e is BadInstruction && forall|i: Instruction| w != seq![
                i.symbol().0,
                i.symbol().1,
            ]
        },
{
    match args.next_raw() {
        None => Err(Error::NoInstruction),
        Some(a) => match Instruction::from_symbol(a) {
            Some(i) => Ok(i),
            None => Err(Error::BadInstruction),
        },
    }
}

/// Takes the next argument as a number no greater than `max`.
pub fn parse_bounded(args: &mut Args<'_>, max: u64) -> (r: Result<u64, Error>)
    requires
        old(args).wf(),
    ensures
        final(args).wf(),
        final(args).words() == old(args).words(),
        final(args).pos() >= old(args).pos(),
        old(args).pos() == old(args).words().len() ==> r matches Err(Error::NoNumber),
        old(args).pos() < old(args).words().len() ==> {
            let w = digits_of(old(args).words()[old(args).pos()]);
            &&& final(args).pos() == old(args).pos() + 1
            &&& r matches Ok(v) ==> is_digits(w) && v == numeral_value(w) && v <= max
            &&& r matches Err(e) ==> e is BadNumber && (!is_digits(w) || numeral_value(w) > max)
        },
{
    match args.next_raw() {
        None => Err(Error::NoNumber),
        Some(a) => match parse_number(a, max) {
            Some(v) => Ok(v),
            None => Err(Error::BadNumber),
        },
    }
}

impl ParseArgs for Dir {
    fn from_args(args: &mut Args<'_>) -> (r: Result<Dir, Error>) {
        parse_dir(args)
    }
}

impl ParseArgs for Instruction {
    fn from_args(args: &mut Args<'_>) -> (r: Result<Instruction, Error>) {
        parse_instruction(args)
    }
}

impl ParseArgs for u8 {
    fn from_args(args: &mut Args<'_>) -> (r: Result<u8, Error>) {
        match parse_bounded(args, 255) {
            Ok(v) => Ok(v as u8),
            Err(e) => Err(e),
        }
    }
}

impl ParseArgs for u16 {
    fn from_args(args: &mut Args<'_>) -> (r: Result<u16, Error>) {
        match parse_bounded(args, 65535) {
            Ok(v) => Ok(v as u16),
            Err(e) => Err(e),
        }
    }
}

impl ParseArgs for u32 {
    fn from_args(args: &mut Args<'_>) -> (r: Result<u32, Error>) {
        match parse_bounded(args, 4294967295) {
            Ok(v) => Ok(v as u32),
            Err(e) => Err(e),
        }
    }
}

impl ParseArgs for usize {
    fn from_args(args: &mut Args<'_>) -> (r: Result<usize, Error>) {
        let max: u64 = if usize::MAX as u64 >= u64::MAX { u64::MAX } else { usize::MAX as u64 };
        match parse_bounded(args, max) {
            Ok(v) => Ok(v as usize),
            Err(e) => Err(e),
        }
    }
}

/// Nothing is parsed from no arguments.
impl ParseArgs for () {
    fn from_args(args: &mut Args<'_>) -> (r: Result<(), Error>) {
        Ok(())
    }
}

/// An optional value is absent where no argument remains.
impl<T: ParseArgs> ParseArgs for Option<T> {
    fn from_args(args: &mut Args<'_>) -> (r: Result<Option<T>, Error>) {
        if args.is_end() {
            Ok(None)
        } else {
            match T::from_args(args) {
                Ok(v) => Ok(Some(v)),
                Err(e) => Err(e),
            }
        }
    }
}

/// A pair is its first value, then its second.
impl<T: ParseArgs, U: ParseArgs> ParseArgs for (T, U) {
    fn from_args(args: &mut Args<'_>) -> (r: Result<(T, U), Error>) {
        let first = match T::from_args(args) {
            Ok(v) => v,
            Err(e) => return Err(e),
        };
        let second = match U::from_args(args) {
            Ok(v) => v,
            Err(e) => return Err(e),
        };
        Ok((first, second))
    }
}

/// A list takes values until no argument remains; it stops early, with
/// what it has, where a value takes no argument.
impl<T: ParseArgs> ParseArgs for Vec<T> {
    fn from_args(args: &mut Args<'_>) -> (r: Result<Vec<T>, Error>) {
        let mut result: Vec<T> = Vec::new();
        while !args.is_end()
            invariant
                args.wf(),
                args.words() == old(args).words(),
                args.pos() >= old(args).pos(),
            decreases args.words().len() - args.pos(),
        {
            let before = args.position();
            match T::from_args(args) {
                Ok(v) => result.push(v),
                Err(e) => return Err(e),
            }
            if args.position() == before {
                break;
            }
        }
        Ok(result)
    }
}

} // verus!
