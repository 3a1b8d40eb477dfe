//! A compact runtime value and its rendering.
//!
//! The value is a small tagged union: immutable scalars and strings are
//! hashable, lists are interior-mutable containers and are not.  Values
//! render into a [`DisplayContext`], and the exact text produced is pinned
//! down by [`spec_display_value`].

use vstd::prelude::*;
use std::rc::Rc;

verus! {

/// Relies on `Rc::clone`, which returns a new handle to the same
/// allocation, so the clone carries the same value.
#[verifier::external_body]
pub fn clone_rc<T>(v: &Rc<T>) -> (r: Rc<T>)
    ensures
        r == *v,
{
    Rc::clone(v)
}

/// Relies on `String::push`, which appends exactly the given character.
pub assume_specification[ String::push ](s: &mut String, c: char)
    ensures
        final(s)@ == old(s)@.push(c),
;

/// A value in the runtime's object model.
#[derive(Debug, PartialEq)]
pub enum KValue {
    /// The null value
    Null,
    /// A boolean
    Bool(bool),
    /// An integer
    Int(i64),
    /// An immutable, shared string
    Str(Rc<String>),
    /// A shared list; lists are mutable containers, so a list is never
    /// hashable
    List(Rc<Vec<KValue>>),
}

impl Clone for KValue {
    fn clone(&self) -> (r: KValue)
        ensures
            r == *self,
    {
        match self {
            KValue::Null => KValue::Null,
            KValue::Bool(b) => KValue::Bool(*b),
            KValue::Int(n) => KValue::Int(*n),
            KValue::Str(s) => KValue::Str(clone_rc(s)),
            KValue::List(l) => KValue::List(clone_rc(l)),
        }
    }
}

/// Whether a value may be used as a map key: everything immutable may;
/// lists may not.
pub open spec fn spec_hashable(v: KValue) -> bool {
    !(v is List)
}

/// The decimal digits of a non-negative integer, most significant first.
pub open spec fn spec_digits(n: int) -> Seq<char>
    decreases n when n >= 0
{
    if n < 10 {
        seq![digit_char(n)]
    } else {
        spec_digits(n / 10).push(digit_char(n % 10))
    }
}

/// The character for a single decimal digit.
pub open spec fn digit_char(d: int) -> char {
    ((d + 48) as u8) as char
}

/// The decimal rendering of an integer, with a leading minus sign when
/// negative.
pub open spec fn spec_int_str(n: int) -> Seq<char> {
    if n < 0 {
        seq!['-'] + spec_digits(-n)
    } else {
        spec_digits(n)
    }
}

/// The text a value renders as: `null`, `true` or `false`, decimal
/// integers, a string's own characters, and lists in brackets with
/// comma-separated elements.
pub open spec fn spec_display_value(v: KValue) -> Seq<char>
    decreases v, 0int,
{
    match v {
        KValue::Null => "null"@,
        KValue::Bool(b) => if b {
            "true"@
        } else {
            "false"@
        },
        KValue::Int(n) => spec_int_str(n as int),
        KValue::Str(s) => s@,
        KValue::List(l) => seq!['['] + spec_display_elems(l@, 0) + seq![']'],
    }
}

/// The rendering of the elements of a sequence from index `i` on, each
/// after a comma-space separator except the first.
pub open spec fn spec_display_elems(s: Seq<KValue>, i: int) -> Seq<char>
    decreases s, s.len() - i,
{
    if 0 <= i < s.len() {
        let sep: Seq<char> = if i > 0 {
            ", "@
        } else {
            Seq::empty()
        };
        sep + spec_display_value(s[i]) + spec_display_elems(s, i + 1)
    } else {
        Seq::empty()
    }
}

/// The buffer that values render into.
pub struct DisplayContext {
    /// The text rendered so far
    pub output: String,
}

impl DisplayContext {
    /// An empty rendering buffer.
    pub fn new() -> (r: DisplayContext)
        ensures
            r.output@ == Seq::<char>::empty(),
    {
        DisplayContext { output: String::new() }
    }

    /// Append a piece of text.
    pub fn append(&mut self, s: &str)
        ensures
            final(self).output@ == old(self).output@ + s@,
    {
        self.output.append(s);
    }

    /// Append a single character.
    pub fn append_char(&mut self, c: char)
        ensures
            final(self).output@ == old(self).output@.push(c),
    {
        self.output.push(c);
    }
}

/// The decimal rendering of an integer, as executable code.
pub fn int_to_string(n: i64) -> (r: String)
    ensures
        r@ == spec_int_str(n as int),
{
    let mut digits: Vec<char> = Vec::new();
    let negative = n < 0;
    // Work in u64 so that i64::MIN needs no special case.
    let mut m: u64 = if n < 0 {
        (-(n as i128)) as u64
    } else {
        n as u64
    };
    let ghost m0 = m as int;
    proof {
        assert(m0 == if n < 0 { -(n as int) } else { n as int });
    }
    loop
        invariant_except_break
            digits@.len() > 0 ==> m > 0,
        invariant
            0 <= m <= m0,
            digits@.len() == 0 ==> m == m0,
            digits@.len() > 0 ==> spec_digits(m0) == (if m > 0 {
                spec_digits(m as int) + digits@.reverse()
            } else {
                digits@.reverse()
            }),
        ensures
            digits@.reverse() == spec_digits(m0),
            digits@.len() > 0,
        decreases m, (if digits@.len() == 0 { 1int } else { 0int }),
    {
        let d = (m % 10) as u8;
        let prev = m;
        let ghost dpre = digits@;
        m = m / 10;
        digits.push(((48 + d) as u8) as char);
        proof {
            assert(digits@.reverse() =~= seq![digit_char(prev as int % 10)]
                + digits@.subrange(0, digits@.len() - 1).reverse());
            assert(digits@.subrange(0, digits@.len() - 1) =~= dpre);
            if dpre.len() == 0 {
                // first digit taken: prev == m0
                if m > 0 {
                    assert(spec_digits(m0) == spec_digits(m as int).push(
                        digit_char(m0 % 10),
                    ));
                    assert(digits@.reverse() =~= seq![digit_char(m0 % 10)]);
                    assert(spec_digits(m as int) + digits@.reverse() =~= spec_digits(
                        m as int,
                    ).push(digit_char(m0 % 10)));
                } else {
                    assert(spec_digits(m0) =~= seq![digit_char(m0)]);
                    assert(digits@.reverse() =~= seq![digit_char(m0 % 10)]);
                    assert(m0 % 10 == m0);
                }
            } else {
                if m > 0 {
                    assert(spec_digits(m as int).push(digit_char(prev as int % 10))
                        == spec_digits(prev as int));
                    assert(spec_digits(m as int) + digits@.reverse() =~= (spec_digits(
                        m as int,
                    ).push(digit_char(prev as int % 10))) + dpre.reverse());
                } else {
                    assert(spec_digits(prev as int) =~= seq![digit_char(prev as int)]);
                    assert(digits@.reverse() =~= spec_digits(prev as int) + dpre.reverse());
                }
            }
        }
        if m == 0 {
            break;
        }
    }
    let mut out = String::new();
    if negative {
        out.push('-');
    }
    proof {
        assert(out@ =~= if negative {
            seq!['-']
        } else {
            Seq::<char>::empty()
        });
        assert(digits@.subrange(digits@.len() as int, digits@.len() as int).reverse()
            =~= Seq::<char>::empty());
        assert(out@ + Seq::<char>::empty() =~= out@);
    }
    let mut k = digits.len();
    loop
        invariant
            0 <= k <= digits.len(),
            out@ == (if negative {
                seq!['-']
            } else {
                Seq::<char>::empty()
            }) + digits@.subrange(k as int, digits@.len() as int).reverse(),
        ensures
            out@ == (if negative {
                seq!['-']
            } else {
                Seq::<char>::empty()
            }) + digits@.reverse(),
        decreases k,
    {
        if k == 0 {
            proof {
                assert(digits@.subrange(0, digits@.len() as int) =~= digits@);
            }
            break;
        }
        k = k - 1;
        out.push(digits[k]);
        proof {
            assert(digits@.subrange(k as int, digits@.len() as int).reverse() =~= digits@.subrange(
                k + 1,
                digits@.len() as int,
            ).reverse().push(digits@[k as int]));
            assert(out@ =~= (if negative {
                seq!['-']
            } else {
                Seq::<char>::empty()
            }) + digits@.subrange(k as int, digits@.len() as int).reverse());
        }
    }
    proof {
        assert(out@ =~= spec_int_str(n as int));
    }
    out
}

impl KValue {
    /// Returns true if the value can be used as a map key.
    pub fn is_hashable(&self) -> (r: bool)
        ensures
            r == spec_hashable(*self),
    {
        !matches!(self, KValue::List(_))
    }

    /// Renders the value into the provided display context.
    pub fn display(&self, ctx: &mut DisplayContext)
        ensures
            final(ctx).output@ == old(ctx).output@ + spec_display_value(*self),
        decreases *self,
    {
        broadcast use vstd::std_specs::vec::group_vec_axioms;

        match self {
            KValue::Null => {
                ctx.append("null");
            },
            KValue::Bool(b) => {
                if *b {
                    ctx.append("true");
                } else {
                    ctx.append("false");
                }
            },
            KValue::Int(n) => {
                let s = int_to_string(*n);
                ctx.append(s.as_str());
            },
            KValue::Str(s) => {
                ctx.append((**s).as_str());
            },
            KValue::List(l) => {
                ctx.append_char('[');
                let ghost base = ctx.output@;
                let mut i: usize = 0;
                loop
                    invariant
                        0 <= i <= (**l)@.len(),
                        ctx.output@ + spec_display_elems((**l)@, i as int) == base
                            + spec_display_elems((**l)@, 0),
                        decreases_to!(*self => (**l)@),
                    ensures
                        ctx.output@ == base + spec_display_elems((**l)@, 0),
                    decreases (**l)@.len() - i,
                {
                    if i >= (**l).len() {
                        break;
                    }
                    let ghost pre = ctx.output@;
                    if i > 0 {
                        ctx.append(", ");
                    }
                    proof {
                        assert(decreases_to!((**l)@ => (**l)@[i as int]));
                    }
                    (**l)[i].display(ctx);
                    proof {
                        let elems = (**l)@;
                        let sep: Seq<char> = if i > 0 {
                            ", "@
                        } else {
                            Seq::<char>::empty()
                        };
                        assert(ctx.output@ =~= pre + (sep + spec_display_value(elems[i as int])));
                        assert(spec_display_elems(elems, i as int) =~= (sep + spec_display_value(
                            elems[i as int],
                        )) + spec_display_elems(elems, i + 1));
                        assert(ctx.output@ + spec_display_elems(elems, i + 1) =~= pre
                            + spec_display_elems(elems, i as int));
                    }
                    i = i + 1;
                }
                ctx.append_char(']');
                proof {
                    assert(ctx.output@ =~= old(ctx).output@ + spec_display_value(*self));
                }
            },
        }
    }
}

} // verus!
