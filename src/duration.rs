use vstd::prelude::*;

use crate::error::SetupError;

verus! {

/// An ASCII decimal digit.
pub open spec fn is_digit(c: char) -> bool {
    '0' <= c && c <= '9'
}

pub open spec fn digit_value(c: char) -> nat {
    (c as int - '0' as int) as nat
}

/// A non-empty run of decimal digits.
pub open spec fn is_number(s: Seq<char>) -> bool {
    &&& s.len() > 0
    &&& forall|k: int| 0 <= k < s.len() ==> is_digit(#[trigger] s[k])
}

/// The value of a run of decimal digits.
pub open spec fn number_value(s: Seq<char>) -> nat
    decreases s.len(),
{
    if s.len() == 0 {
        0
    } else {
        number_value(s.drop_last()) * 10 + digit_value(s.last())
    }
}

/// The pieces of `s` between colons, in order (one piece when there is no
/// colon, empty pieces included).
pub open spec fn fields(s: Seq<char>) -> Seq<Seq<char>>
    decreases s.len(),
{
    if s.len() == 0 {
        seq![Seq::<char>::empty()]
    } else {
        let f = fields(s.drop_last());
        if s.last() == ':' {
            f.push(Seq::<char>::empty())
        } else {
            f.update(f.len() - 1, f.last().push(s.last()))
        }
    }
}

/// The digits of a part: the part itself, or what follows a leading `+`.
pub open spec fn unsigned_digits(s: Seq<char>) -> Seq<char> {
    if s.len() > 0 && s[0] == '+' {
        s.drop_first()
    } else {
        s
    }
}

/// A part of a duration: an optional `+`, then one or more decimal digits.
pub open spec fn is_part(s: Seq<char>) -> bool {
    is_number(unsigned_digits(s))
}

/// The value of a part of a duration.
pub open spec fn part_value(s: Seq<char>) -> nat {
    number_value(unsigned_digits(s))
}

/// Fields read in base 60: the last counts seconds, the one before it
/// minutes, the one before that hours.
pub open spec fn base60_value(f: Seq<Seq<char>>) -> nat
    decreases f.len(),
{
    if f.len() == 0 {
        0
    } else {
        base60_value(f.drop_last()) * 60 + part_value(f.last())
    }
}

/// `s` is of the form `[[H:]M:]S`, each part a run of decimal digits with
/// an optional leading `+`.
pub open spec fn is_duration(s: Seq<char>) -> bool {
    &&& 1 <= fields(s).len() <= 3
    &&& forall|j: int| 0 <= j < fields(s).len() ==> is_part(#[trigger] fields(s)[j])
}

/// The number of seconds that a duration stands for.
pub open spec fn duration_value(s: Seq<char>) -> nat {
    base60_value(fields(s))
}

/// `g` continues `f`: it has all the finished pieces of `f`, and its piece
/// at the place of the last piece of `f` begins with that piece.
pub open spec fn continues(g: Seq<Seq<char>>, f: Seq<Seq<char>>) -> bool {
    &&& 1 <= f.len() <= g.len()
    &&& forall|j: int| 0 <= j < f.len() - 1 ==> #[trigger] g[j] == f[j]
    &&& f.last().len() <= g[f.len() - 1].len()
    &&& g[f.len() - 1].take(f.last().len() as int) == f.last()
}

proof fn lemma_fields_nonempty(s: Seq<char>)
    ensures
        fields(s).len() >= 1,
    decreases s.len(),
{
    if s.len() > 0 {
        lemma_fields_nonempty(s.drop_last());
    }
}

proof fn lemma_continues_trans(h: Seq<Seq<char>>, g: Seq<Seq<char>>, f: Seq<Seq<char>>)
    requires
        continues(h, g),
        continues(g, f),
    ensures
        continues(h, f),
{
    let k = f.len() - 1;
    if k < g.len() - 1 {
        assert(g[k] == h[k]);
    } else {
        assert(g[k].take(f.last().len() as int) == h[k].take(f.last().len() as int));
    }
}

/// The pieces of a prefix are continued by the pieces of the whole.
proof fn lemma_fields_prefix(s: Seq<char>, i: int)
    requires
        0 <= i <= s.len(),
    ensures
        continues(fields(s), fields(s.take(i))),
    decreases s.len(),
{
    lemma_fields_nonempty(s);
    if i == s.len() {
        assert(s.take(i) =~= s);
        assert(fields(s).last().take(fields(s).last().len() as int) =~= fields(s).last());
    } else {
        let p = s.drop_last();
        lemma_fields_prefix(p, i);
        assert(p.take(i) =~= s.take(i));
        lemma_fields_nonempty(p);
        let f = fields(p);
        if s.last() != ':' {
            assert(fields(s)[f.len() - 1].take(f.last().len() as int) =~= f.last());
        } else {
            assert(fields(s)[f.len() - 1].take(f.last().len() as int) =~= f.last());
        }
        lemma_continues_trans(fields(s), fields(p), fields(s.take(i)));
    }
}

proof fn lemma_number_prefix(s: Seq<char>, n: int)
    requires
        0 <= n <= s.len(),
    ensures
        number_value(s.take(n)) <= number_value(s),
    decreases s.len(),
{
    if n < s.len() {
        lemma_number_prefix(s.drop_last(), n);
        assert(s.drop_last().take(n) =~= s.take(n));
    } else {
        assert(s.take(n) =~= s);
    }
}

proof fn lemma_base60_prefix(f: Seq<Seq<char>>, m: int)
    requires
        0 <= m <= f.len(),
    ensures
        base60_value(f.take(m)) <= base60_value(f),
        m < f.len() ==> part_value(f[m]) <= base60_value(f),
    decreases f.len(),
{
    if m < f.len() {
        lemma_base60_prefix(f.drop_last(), m);
        assert(f.drop_last().take(m) =~= f.take(m));
        if m < f.len() - 1 {
            assert(f.drop_last()[m] == f[m]);
        }
    } else {
        assert(f.take(m) =~= f);
    }
}

/// The digits of a part that continues `p`, as far as `p` goes, are the
/// digits of `p`.
proof fn lemma_digits_prefix(g: Seq<char>, p: Seq<char>)
    requires
        p.len() >= 1,
        p.len() <= g.len(),
        g.take(p.len() as int) == p,
    ensures
        unsigned_digits(p).len() <= unsigned_digits(g).len(),
        unsigned_digits(g).take(unsigned_digits(p).len() as int) == unsigned_digits(p),
        number_value(unsigned_digits(p)) <= number_value(unsigned_digits(g)),
{
    assert(g[0] == p[0]);
    if p[0] == '+' {
        assert(unsigned_digits(g).take(p.len() - 1) =~= unsigned_digits(p));
    } else {
        assert(unsigned_digits(g).take(p.len() as int) =~= unsigned_digits(p));
    }
    lemma_number_prefix(unsigned_digits(g), unsigned_digits(p).len() as int);
}

/// Reads a duration of the form `[[H:]M:]S` as a number of seconds: a bare
/// number is seconds, and each colon-separated part to the left counts sixty
/// times the part on its right. Each part may start with a `+`.
pub fn parse_duration(text: &str) -> (r: Result<u32, SetupError>)
    ensures
        r is Ok <==> is_duration(text@) && duration_value(text@) <= u32::MAX,
        r matches Ok(v) ==> v == duration_value(text@),
        r matches Err(e) ==> e == SetupError::UnparsableDuration,
{
    let n = text.unicode_len();
    let ghost s = text@;
    let mut count: usize = 1;
    let mut acc: u64 = 0;
    let mut cur: u64 = 0;
    let mut cur_len: usize = 0;
    let mut plus: bool = false;
    let mut i: usize = 0;
    proof {
        assert(s.take(0) =~= Seq::<char>::empty());
    }
    while i < n
        invariant
            n == s.len(),
            s == text@,
            i <= n,
            fields(s.take(i as int)).len() == count,
            1 <= count <= 3,
            forall|j: int| 0 <= j < count - 1 ==> is_part(#[trigger] fields(s.take(i as int))[j]),
            fields(s.take(i as int)).last().len() == cur_len,
            cur_len <= i,
            plus == (cur_len > 0 && fields(s.take(i as int)).last()[0] == '+'),
            forall|k: int|
                (if plus { 1int } else { 0int }) <= k < cur_len ==> is_digit(
                    #[trigger] fields(s.take(i as int)).last()[k],
                ),
            acc == base60_value(fields(s.take(i as int)).drop_last()),
            cur == part_value(fields(s.take(i as int)).last()),
            acc <= u32::MAX,
            cur <= u32::MAX,
        decreases n - i,
    {
        let c = text.get_char(i);
        let ghost f = fields(s.take(i as int));
        let ghost f2 = fields(s.take(i + 1));
        proof {
            assert(s.take(i + 1).drop_last() =~= s.take(i as int));
            assert(s.take(i + 1).last() == c);
            lemma_fields_prefix(s, i + 1);
            lemma_fields_nonempty(s);
        }
        if c == ':' {
            if cur_len == 0 || (plus && cur_len == 1) {
                proof {
                    assert(fields(s)[count - 1] == f2[count - 1]);
                    assert(unsigned_digits(f.last()).len() == 0);
                }
                return Err(SetupError::UnparsableDuration);
            }
            if count == 3 {
                return Err(SetupError::UnparsableDuration);
            }
            let next = acc * 60 + cur;
            proof {
                assert(f2.drop_last() =~= f);
                assert(f.drop_last() =~= f2.drop_last().drop_last());
                assert(fields(s).take(count as int) =~= f);
                lemma_base60_prefix(fields(s), count as int);
                if plus {
                    assert forall|k: int| 0 <= k < unsigned_digits(f.last()).len() implies is_digit(
                        #[trigger] unsigned_digits(f.last())[k],
                    ) by {
                        assert(unsigned_digits(f.last())[k] == f.last()[k + 1]);
                    }
                }
            }
            if next > 0xffff_ffff {
                return Err(SetupError::UnparsableDuration);
            }
            acc = next;
            cur = 0;
            cur_len = 0;
            plus = false;
            count = count + 1;
        } else if c == '+' && cur_len == 0 {
            proof {
                assert(f2.drop_last() =~= f.drop_last());
                assert(f2.last() =~= seq!['+']);
                assert(unsigned_digits(f2.last()) =~= Seq::<char>::empty());
            }
            plus = true;
            cur_len = 1;
        } else if '0' <= c && c <= '9' {
            let d = (c as u32 - '0' as u32) as u64;
            let next = cur * 10 + d;
            proof {
                assert(f2.last().drop_last() =~= f.last());
                assert(f2.drop_last() =~= f.drop_last());
                assert(f2.last()[0] == if cur_len == 0 { c } else { f.last()[0] });
                assert(unsigned_digits(f2.last()).drop_last() =~= unsigned_digits(f.last()));
                assert(next == part_value(f2.last()));
                let g = fields(s);
                lemma_digits_prefix(g[count - 1], f2.last());
                lemma_base60_prefix(g, count - 1);
            }
            if next > 0xffff_ffff {
                return Err(SetupError::UnparsableDuration);
            }
            cur = next;
            cur_len = cur_len + 1;
        } else {
            proof {
                let g = fields(s);
                let part = g[count - 1];
                assert(part[cur_len as int] == f2.last()[cur_len as int]);
                assert(part[cur_len as int] == c);
                if cur_len == 0 {
                    assert(unsigned_digits(part) == part);
                } else {
                    assert(part[0] == f2.last()[0]);
                    if part[0] == '+' {
                        assert(unsigned_digits(part)[cur_len - 1] == c);
                    } else {
                        assert(unsigned_digits(part)[cur_len as int] == c);
                    }
                }
            }
            return Err(SetupError::UnparsableDuration);
        }
        i = i + 1;
    }
    proof {
        assert(s.take(n as int) =~= s);
        if cur_len > 0 && !(plus && cur_len == 1) && plus {
            let last = fields(s).last();
            assert forall|k: int| 0 <= k < unsigned_digits(last).len() implies is_digit(
                #[trigger] unsigned_digits(last)[k],
            ) by {
                assert(unsigned_digits(last)[k] == last[k + 1]);
            }
        }
    }
    if cur_len == 0 || (plus && cur_len == 1) {
        proof {
            assert(unsigned_digits(fields(s).last()).len() == 0);
        }
        return Err(SetupError::UnparsableDuration);
    }
    let total = acc * 60 + cur;
    if total > 0xffff_ffff {
        return Err(SetupError::UnparsableDuration);
    }
    Ok(total as u32)
}

} // verus!
