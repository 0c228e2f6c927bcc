//! Human-readable text of regular expressions.

use vstd::prelude::*;
use crate::alphabet::Alphabet;
use vstd::string::StringExecFns;
use crate::builder::Regex;
use crate::builder::Vocabulary;

verus! {

/// How tightly a term binds: a term is put in parentheses where it stands
/// inside a term that binds at least as tightly.
#[derive(Clone, Copy, Debug, PartialEq, Eq)]
pub enum Level {
    Open,
    Binary,
    Unary,
    Atom,
}

/// Where a term stands: as the left operand of a term of its own kind,
/// which is written without parentheses, or anywhere else.
#[derive(Clone, Copy, Debug, PartialEq, Eq)]
pub enum Context {
    Inner,
    Left,
}

impl Level {
    /// The place of the level in the order of the levels.
    pub open spec fn spec_rank(self) -> u8 {
        match self {
            Level::Open => 0,
            Level::Binary => 1,
            Level::Unary => 2,
            Level::Atom => 3,
        }
    }

    /// The place of the level in the order of the levels.
    pub fn rank(self) -> (n: u8)
        ensures
            n == self.spec_rank(),
    {
        match self {
            Level::Open => 0,
            Level::Binary => 1,
            Level::Unary => 2,
            Level::Atom => 3,
        }
    }
}

/// The text of one decimal digit.
pub open spec fn digit(d: u64) -> Seq<char> {
    if d == 0 {
        "0"@
    } else if d == 1 {
        "1"@
    } else if d == 2 {
        "2"@
    } else if d == 3 {
        "3"@
    } else if d == 4 {
        "4"@
    } else if d == 5 {
        "5"@
    } else if d == 6 {
        "6"@
    } else if d == 7 {
        "7"@
    } else if d == 8 {
        "8"@
    } else {
        "9"@
    }
}

/// The decimal text of a code.
pub open spec fn decimal(code: u64) -> Seq<char>
    decreases code,
{
    if code < 10 {
        digit(code)
    } else {
        decimal(code / 10) + digit(code % 10)
    }
}

/// The text of one decimal digit.
fn digit_text(d: u64) -> (text: &'static str)
    requires
        d < 10,
    ensures
        text@ == digit(d),
{
    if d == 0 {
        "0"
    } else if d == 1 {
        "1"
    } else if d == 2 {
        "2"
    } else if d == 3 {
        "3"
    } else if d == 4 {
        "4"
    } else if d == 5 {
        "5"
    } else if d == 6 {
        "6"
    } else if d == 7 {
        "7"
    } else if d == 8 {
        "8"
    } else {
        "9"
    }
}

/// Appends the decimal text of the code.
fn write_code(f: &mut String, code: u64)
    ensures
        final(f)@ == old(f)@ + decimal(code),
    decreases code,
{
    if code >= 10 {
        write_code(f, code / 10);
    }
    f.append(digit_text(code % 10));
    proof {
        assert(final(f)@ =~= old(f)@ + decimal(code));
    }
}

/// Whether the two terms are nodes of the same binary constructor.
pub open spec fn same_chain<B: Vocabulary>(outer: Regex<B>, left: Regex<B>) -> bool {
    match (outer, left) {
        (Regex::Concat(_, _), Regex::Concat(_, _)) => true,
        (Regex::Or(_, _), Regex::Or(_, _)) => true,
        (Regex::And(_, _), Regex::And(_, _)) => true,
        _ => false,
    }
}

impl<B: Vocabulary> Regex<B> {
    /// How tightly the outermost constructor binds.
    pub open spec fn spec_level(&self) -> Level {
        match self {
            Regex::EmptySet => Level::Atom,
            Regex::EmptyString => Level::Atom,
            Regex::Symbol(_) => Level::Atom,
            Regex::Concat(_, _) => Level::Binary,
            Regex::Or(_, _) => Level::Binary,
            Regex::And(_, _) => Level::Binary,
            Regex::Closure(_) => Level::Unary,
            Regex::Complement(_) => Level::Unary,
        }
    }

    /// How tightly the outermost constructor binds.
    pub fn level(&self) -> (level: Level)
        ensures
            level == self.spec_level(),
    {
        match self {
            Regex::EmptySet => Level::Atom,
            Regex::EmptyString => Level::Atom,
            Regex::Symbol(_) => Level::Atom,
            Regex::Concat(_, _) => Level::Binary,
            Regex::Or(_, _) => Level::Binary,
            Regex::And(_, _) => Level::Binary,
            Regex::Closure(_) => Level::Unary,
            Regex::Complement(_) => Level::Unary,
        }
    }

    /// Whether the term is written in parentheses where it stands.
    pub open spec fn enclosed(&self, ctx: Context, level: Level) -> bool {
        ctx is Inner && self.spec_level().spec_rank() <= level.spec_rank()
    }

    /// The text of the left operand `left` of this term, which stands
    /// inside a term that binds as `outer_level` says.
    pub open spec fn spec_fmt_left(&self, left: &Regex<B>, outer_level: Level) -> Seq<char>
        decreases *left, 2nat,
    {
        if same_chain(*self, *left) {
            left.spec_fmt(Context::Left, outer_level)
        } else {
            left.spec_fmt(Context::Inner, self.spec_level())
        }
    }

    /// The text of the term without parentheses round it: `∅`, `ε`, the
    /// decimal code of a symbol, a space for concatenation, `*`, ` | `,
    /// ` & ` and `¬`.
    pub open spec fn spec_body(&self, level: Level) -> Seq<char>
        decreases *self, 0nat,
    {
        match self {
            Regex::EmptySet => "∅"@,
            Regex::EmptyString => "ε"@,
            Regex::Symbol(value) => decimal(value.code()),
            Regex::Concat(left, right) => self.spec_fmt_left(left, level) + " "@ + right.spec_fmt(
                Context::Inner,
                Level::Binary,
            ),
            Regex::Closure(inner) => inner.spec_fmt(Context::Inner, Level::Unary) + "*"@,
            Regex::Or(left, right) => self.spec_fmt_left(left, level) + " | "@ + right.spec_fmt(
                Context::Inner,
                Level::Binary,
            ),
            Regex::And(left, right) => self.spec_fmt_left(left, level) + " & "@ + right.spec_fmt(
                Context::Inner,
                Level::Binary,
            ),
            Regex::Complement(inner) => "¬"@ + inner.spec_fmt(Context::Inner, Level::Unary),
        }
    }

    /// The text of the term as it stands in the given place: in
    /// parentheses where it stands inside a term that binds at least as
    /// tightly, but for the left operand of a term of its own kind.
    pub open spec fn spec_fmt(&self, ctx: Context, level: Level) -> Seq<char>
        decreases *self, 1nat,
    {
        if self.enclosed(ctx, level) {
            "("@ + self.spec_body(level) + ")"@
        } else {
            self.spec_body(level)
        }
    }

    /// The text of the term.
    pub open spec fn spec_text(&self) -> Seq<char> {
        self.spec_fmt(Context::Inner, Level::Open)
    }

    /// Appends the text of the term without parentheses round it.
    fn fmt_body(&self, f: &mut String, level: Level)
        ensures
            final(f)@ == old(f)@ + self.spec_body(level),
        decreases *self, 0nat,
    {
        let ghost start = f@;
        match self {
            Regex::EmptySet => f.append("∅"),
            Regex::EmptyString => f.append("ε"),
            Regex::Symbol(value) => write_code(f, value.key()),
            Regex::Concat(left, right) => {
                self.fmt_left(f, left, level);
                f.append(" ");
                self.fmt_right_or_inner(f, right);
                proof {
                    assert(f@ =~= start + (self.spec_fmt_left(left, level) + " "@
                        + right.spec_fmt(Context::Inner, Level::Binary)));
                }
            },
            Regex::Closure(inner) => {
                self.fmt_right_or_inner(f, inner);
                f.append("*");
                proof {
                    assert(f@ =~= start + (inner.spec_fmt(Context::Inner, Level::Unary) + "*"@));
                }
            },
            Regex::Or(left, right) => {
                self.fmt_left(f, left, level);
                f.append(" | ");
                self.fmt_right_or_inner(f, right);
                proof {
                    assert(f@ =~= start + (self.spec_fmt_left(left, level) + " | "@
                        + right.spec_fmt(Context::Inner, Level::Binary)));
                }
            },
            Regex::And(left, right) => {
                self.fmt_left(f, left, level);
                f.append(" & ");
                self.fmt_right_or_inner(f, right);
                proof {
                    assert(f@ =~= start + (self.spec_fmt_left(left, level) + " & "@
                        + right.spec_fmt(Context::Inner, Level::Binary)));
                }
            },
            Regex::Complement(inner) => {
                f.append("¬");
                self.fmt_right_or_inner(f, inner);
                proof {
                    assert(f@ =~= start + ("¬"@ + inner.spec_fmt(Context::Inner, Level::Unary)));
                }
            },
        }
    }

    /// Appends the text of the term as it stands in the given place.
    pub fn fmt(&self, f: &mut String, ctx: Context, level: Level)
        ensures
            final(f)@ == old(f)@ + self.spec_fmt(ctx, level),
        decreases *self, 1nat,
    {
        let ghost start = f@;
        let enclosed: bool = matches!(ctx, Context::Inner) && self.level().rank() <= level.rank();
        if enclosed {
            f.append("(");
            self.fmt_body(f, level);
            f.append(")");
            proof {
                assert(f@ =~= start + ("("@ + self.spec_body(level) + ")"@));
            }
        } else {
            self.fmt_body(f, level);
        }
    }

    /// Appends the text of the left operand of this term.
    fn fmt_left(&self, f: &mut String, left: &Regex<B>, outer_level: Level)
        ensures
            final(f)@ == old(f)@ + self.spec_fmt_left(left, outer_level),
        decreases *left, 2nat,
    {
        match (self, left) {
            (Regex::Concat(_, _), Regex::Concat(_, _)) => left.fmt(f, Context::Left, outer_level),
            (Regex::Or(_, _), Regex::Or(_, _)) => left.fmt(f, Context::Left, outer_level),
            (Regex::And(_, _), Regex::And(_, _)) => left.fmt(f, Context::Left, outer_level),
            _ => left.fmt(f, Context::Inner, self.level()),
        }
    }

    /// Appends the text of the right operand or of the only operand of
    /// this term.
    fn fmt_right_or_inner(&self, f: &mut String, right_or_inner: &Regex<B>)
        ensures
            final(f)@ == old(f)@ + right_or_inner.spec_fmt(Context::Inner, self.spec_level()),
        decreases *right_or_inner, 2nat,
    {
        right_or_inner.fmt(f, Context::Inner, self.level())
    }

    /// The text of the term.
    pub fn to_text(&self) -> (text: String)
        ensures
            text@ == self.spec_text(),
    {
        let mut text = String::new();
        self.fmt(&mut text, Context::Inner, Level::Open);
        proof {
            assert(text@ =~= self.spec_text());
        }
        text
    }
}

} // verus!
