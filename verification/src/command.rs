use crate::text::{chars_of, extend, extend_str, string_of};
use crate::util::number::{numeral, push_numeral};
use vstd::prelude::*;

verus! {

/// A command: what it writes when it is run.
pub trait Command {
    /// The text that the command writes.
    spec fn output(&self) -> Seq<char>;

    /// Runs the command and returns the text that it writes.
    fn run(&self) -> (s: String)
        ensures
            s@ == self.output(),
    ;
}

/// Adds up digits and compares the sum with a guess.
#[derive(Debug, PartialEq)]
pub struct Sum {
    pub guess: u8,
    pub digits: Vec<u8>,
    pub verbose: bool,
}

/// The sum of the first `n` of `digits`.
pub open spec fn sum_of(digits: Seq<u8>, n: int) -> nat
    decreases n,
{
    if n <= 0 {
        0
    } else {
        sum_of(digits, n - 1) + digits[n - 1] as nat
    }
}

/// The first `n` of `digits` written as a sum.
pub open spec fn sum_text(digits: Seq<u8>, n: int) -> Seq<char>
    decreases n,
{
    if n <= 0 {
        Seq::empty()
    } else if n == 1 {
        numeral(digits[0] as nat, 10)
    } else {
        sum_text(digits, n - 1) + " + "@ + numeral(digits[n - 1] as nat, 10)
    }
}

/// The sum of digits stays below 256 times their number.
pub proof fn lemma_sum_bound(digits: Seq<u8>, n: int)
    requires
        0 <= n <= digits.len(),
    ensures
        sum_of(digits, n) <= 255 * n,
    decreases n,
{
    if n > 0 {
        lemma_sum_bound(digits, n - 1);
    }
}

impl Command for Sum {
    open spec fn output(&self) -> Seq<char> {
        let n = self.digits@.len() as int;
        (if !self.verbose {
            Seq::empty()
        } else if n == 0 {
            "= "@
        } else {
            sum_text(self.digits@, n) + " = "@
        }) + numeral(sum_of(self.digits@, n), 10) + seq!['\n'] + (if sum_of(self.digits@, n)
            == self.guess {
            "you guessed right!"@
        } else {
            "you guessed incorrectly."@
        }) + seq!['\n']
    }

    fn run(&self) -> (s: String) {
        let mut out: Vec<char> = Vec::new();
        let mut text: Vec<char> = Vec::new();
        let mut sum: u128 = 0;
        let mut i: usize = 0;
        while i < self.digits.len()
            invariant
                i <= self.digits.len(),
                sum == sum_of(self.digits@, i as int),
                text@ == sum_text(self.digits@, i as int),
            decreases self.digits.len() - i,
        {
            proof {
                lemma_sum_bound(self.digits@, i as int);
            }
            if i > 0 {
                extend_str(&mut text, " + ");
            }
            push_numeral(&mut text, self.digits[i] as u128, 10);
            sum = sum + self.digits[i] as u128;
            i += 1;
        }
        if self.verbose {
            if self.digits.len() == 0 {
                extend_str(&mut out, "= ");
            } else {
                extend(&mut out, &text);
                extend_str(&mut out, " = ");
            }
        }
        push_numeral(&mut out, sum, 10);
        out.push('\n');
        if sum == self.guess as u128 {
            extend_str(&mut out, "you guessed right!");
        } else {
            extend_str(&mut out, "you guessed incorrectly.");
        }
        out.push('\n');
        assert(out@ =~= self.output());
        string_of(&out)
    }
}

/// Writes a number in another base.
#[derive(Debug, PartialEq)]
pub struct NumCast {
    pub deci: u32,
    pub base: u8,
    pub pad: u8,
}

impl Command for NumCast {
    open spec fn output(&self) -> Seq<char> {
        (if self.base == 2 || self.base == 8 || self.base == 16 {
            numeral(self.deci as nat, self.base as nat)
        } else {
            "unsupported base value"@
        }) + seq!['\n']
    }

    fn run(&self) -> (s: String) {
        let mut out: Vec<char> = Vec::new();
        if self.base == 2 || self.base == 8 || self.base == 16 {
            push_numeral(&mut out, self.deci as u128, self.base as u32);
        } else {
            extend_str(&mut out, "unsupported base value");
        }
        out.push('\n');
        assert(out@ =~= self.output());
        string_of(&out)
    }
}

/// A command that the tool knows by name.
#[derive(Debug, PartialEq)]
pub enum Subcommand {
    Sum(Sum),
    NumCast(NumCast),
}

impl Command for Subcommand {
    open spec fn output(&self) -> Seq<char> {
        match self {
            Subcommand::Sum(c) => c.output(),
            Subcommand::NumCast(c) => c.output(),
        }
    }

    fn run(&self) -> (s: String) {
        match self {
            Subcommand::Sum(c) => c.run(),
            Subcommand::NumCast(c) => c.run(),
        }
    }
}

/// Finds a command by its name.
pub trait Dispatch: Sized {
    /// The name under which the command is known, if `s` is one.
    spec fn known(s: Seq<char>) -> bool;

    /// Whether `s` names a command of this kind.
    fn dispatch(s: &str) -> (r: bool)
        ensures
            r == Self::known(s@),
    ;
}

impl Dispatch for Sum {
    open spec fn known(s: Seq<char>) -> bool {
        s == "sum"@
    }

    fn dispatch(s: &str) -> (r: bool) {
        crate::text::chars_eq(&chars_of(s), &chars_of("sum"))
    }
}

impl Dispatch for NumCast {
    open spec fn known(s: Seq<char>) -> bool {
        s == "cast"@
    }

    fn dispatch(s: &str) -> (r: bool) {
        crate::text::chars_eq(&chars_of(s), &chars_of("cast"))
    }
}

impl Dispatch for Subcommand {
    open spec fn known(s: Seq<char>) -> bool {
        s == "sum"@ || s == "cast"@
    }

    fn dispatch(s: &str) -> (r: bool) {
        Sum::dispatch(s) || NumCast::dispatch(s)
    }
}

/// The tool itself with what was asked of it.
#[derive(Debug, PartialEq)]
pub struct Orbit {
    pub version: bool,
    pub help: bool,
    pub config: Vec<String>,
    pub color: Option<u8>,
    pub command: Option<Subcommand>,
}

/// The index of the first `=` in `s[i..]`, or the length of the text.
pub open spec fn equals_index(s: Seq<char>, i: int) -> int
    decreases s.len() - i,
{
    if i < 0 || i >= s.len() {
        s.len() as int
    } else if s[i] == '=' {
        i
    } else {
        equals_index(s, i + 1)
    }
}

/// What is written for one setting: its key and its value, if it is
/// written as `<key>=<value>`.
pub open spec fn config_line(s: Seq<char>) -> Seq<char> {
    let k = equals_index(s, 0);
    if k < s.len() {
        "key: "@ + s.subrange(0, k) + "\tvalue: "@ + s.subrange(k + 1, s.len() as int) + seq!['\n']
    } else {
        Seq::empty()
    }
}

/// What is written for the first `n` settings.
pub open spec fn config_text(config: Seq<String>, n: int) -> Seq<char>
    decreases n,
{
    if n <= 0 {
        Seq::empty()
    } else {
        config_text(config, n - 1) + config_line(config[n - 1]@)
    }
}

impl Command for Orbit {
    open spec fn output(&self) -> Seq<char> {
        config_text(self.config@, self.config@.len() as int) + if self.version {
            "orbit 0.1.0\n"@
        } else {
            match self.command {
                Some(cmd) => cmd.output(),
                None => "orbit is a tool for hdl package management\nusage:\n\torbit [options] [command]\n"@,
            }
        }
    }

    fn run(&self) -> (s: String) {
        let mut out: Vec<char> = Vec::new();
        let mut i: usize = 0;
        while i < self.config.len()
            invariant
                i <= self.config.len(),
                out@ == config_text(self.config@, i as int),
            decreases self.config.len() - i,
        {
            let entry = chars_of(self.config[i].as_str());
            let mut k: usize = 0;
            while k < entry.len() && entry[k] != '='
                invariant
                    k <= entry.len(),
                    equals_index(entry@, k as int) == equals_index(entry@, 0),
                decreases entry.len() - k,
            {
                k += 1;
            }
            let ghost before = out@;
            if k < entry.len() {
                extend_str(&mut out, "key: ");
                extend(&mut out, &crate::text::subvec(&entry, 0, k));
                extend_str(&mut out, "\tvalue: ");
                extend(&mut out, &crate::text::subvec(&entry, k + 1, entry.len()));
                out.push('\n');
            }
            assert(out@ =~= before + config_line(entry@));
            i += 1;
        }
        if self.version {
            extend_str(&mut out, "orbit 0.1.0\n");
        } else {
            match &self.command {
                Some(cmd) => {
                    extend_str(&mut out, cmd.run().as_str());
                },
                None => {
                    extend_str(
                        &mut out,
                        "orbit is a tool for hdl package management\nusage:\n\torbit [options] [command]\n",
                    );
                },
            }
        }
        string_of(&out)
    }
}

} // verus!
