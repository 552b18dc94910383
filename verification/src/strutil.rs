//! Small verified helpers over strings: equality, path joining, and
//! splitting a path into its `/`-separated segments.

use vstd::prelude::*;
use vstd::string::StrSliceExecFns;
use vstd::string::StringExecFns;

verus! {

/// The sequence of characters of `base`, a `/`, then `name`: how every
/// per-device file path in the working directory is formed.
pub open spec fn joined(base: Seq<char>, name: Seq<char>) -> Seq<char> {
    base + seq!['/'] + name
}

/// Join one path component onto a base path with a `/` separator.
pub fn join_path(base: &str, name: &str) -> (r: String)
    ensures
        r@ == joined(base@, name@),
{
    let mut s = String::from_str(base);
    s.append("/");
    s.append(name);
    proof {
        reveal_strlit("/");
        assert(s@ =~= joined(base@, name@));
    }
    s
}

/// Character-for-character string equality.
pub fn str_eq(a: &str, b: &str) -> (r: bool)
    ensures
        r == (a@ == b@),
{
    let sa = String::from_str(a);
    let sb = String::from_str(b);
    sa == sb
}

/// Append one argument to an argument vector, tracked at the level of
/// character sequences.
pub fn push_arg(v: &mut Vec<String>, s: String)
    ensures
        final(v).deep_view() == old(v).deep_view().push(s@),
        final(v)@.len() == old(v)@.len() + 1,
{
    v.push(s);
    proof {
        assert(v.deep_view() =~= old(v).deep_view().push(s@));
    }
}

/// Copy a vector of strings, tracked at the level of character
/// sequences.
pub fn clone_strings(v: &Vec<String>) -> (r: Vec<String>)
    ensures
        r.deep_view() == v.deep_view(),
{
    let mut r: Vec<String> = Vec::new();
    let n = v.len();
    let mut i: usize = 0;
    proof {
        assert(r.deep_view() =~= v.deep_view().subrange(0, 0));
    }
    while i < n
        invariant
            n == v@.len(),
            0 <= i <= n,
            r.deep_view() == v.deep_view().subrange(0, i as int),
        decreases n - i,
    {
        push_arg(&mut r, v[i].clone());
        proof {
            assert(r.deep_view() =~= v.deep_view().subrange(0, i + 1));
        }
        i = i + 1;
    }
    proof {
        assert(v.deep_view().subrange(0, n as int) =~= v.deep_view());
    }
    r
}

/// Concatenating two argument vectors concatenates their images as
/// character sequences.
pub proof fn lemma_append_deep_view(a: Vec<String>, pre: Vec<String>, tail: Vec<String>)
    requires
        a@ == pre@ + tail@,
    ensures
        a.deep_view() == pre.deep_view() + tail.deep_view(),
{
    assert forall|k: int| 0 <= k < a@.len() implies a.deep_view()[k] == (pre.deep_view()
        + tail.deep_view())[k] by {
        assert(a.deep_view()[k] == a@[k].deep_view());
        if k < pre@.len() {
            assert(a@[k] == pre@[k]);
            assert(pre.deep_view()[k] == pre@[k].deep_view());
        } else {
            assert(a@[k] == tail@[k - pre@.len()]);
            assert(tail.deep_view()[k - pre@.len()] == tail@[k - pre@.len()].deep_view());
        }
    }
    assert(a.deep_view() =~= pre.deep_view() + tail.deep_view());
}

/// Removing one element of a vector removes its image as a character
/// sequence at the same position.
pub proof fn lemma_remove_deep_view<T: DeepView>(a: Vec<T>, pre: Vec<T>, i: int)
    requires
        0 <= i < pre@.len(),
        a@ == pre@.remove(i),
    ensures
        a.deep_view() == pre.deep_view().remove(i),
{
    assert forall|k: int| 0 <= k < a@.len() implies a.deep_view()[k] == pre.deep_view().remove(
        i,
    )[k] by {
        assert(a.deep_view()[k] == a@[k].deep_view());
        if k < i {
            assert(a@[k] == pre@[k]);
            assert(pre.deep_view()[k] == pre@[k].deep_view());
        } else {
            assert(a@[k] == pre@[k + 1]);
            assert(pre.deep_view()[k + 1] == pre@[k + 1].deep_view());
        }
    }
    assert(a.deep_view() =~= pre.deep_view().remove(i));
}

/// Inserting one element at the front of a vector prepends its image as
/// a character sequence.
pub proof fn lemma_insert0_deep_view<T: DeepView>(a: Vec<T>, pre: Vec<T>, x: T)
    requires
        a@ == pre@.insert(0, x),
    ensures
        a.deep_view() == seq![x.deep_view()] + pre.deep_view(),
{
    assert forall|k: int| 0 <= k < a@.len() implies a.deep_view()[k] == (seq![x.deep_view()]
        + pre.deep_view())[k] by {
        assert(a.deep_view()[k] == a@[k].deep_view());
        if k == 0 {
            assert(a@[0] == x);
        } else {
            assert(a@[k] == pre@[k - 1]);
            assert(pre.deep_view()[k - 1] == pre@[k - 1].deep_view());
        }
    }
    assert(a.deep_view() =~= seq![x.deep_view()] + pre.deep_view());
}

/// `name` stands at position `i` of `path` as a whole `/`-delimited
/// segment.
pub open spec fn seg_at(path: Seq<char>, name: Seq<char>, i: int) -> bool {
    &&& 0 <= i
    &&& i + name.len() <= path.len()
    &&& path.subrange(i, i + name.len() as int) == name
    &&& (i == 0 || path[i - 1] == '/')
    &&& (i + name.len() == path.len() || path[i + name.len() as int] == '/')
}

/// `name` occurs somewhere in `path` as a whole `/`-delimited segment.
pub open spec fn seg_matches(path: Seq<char>, name: Seq<char>) -> bool {
    exists|i: int| seg_at(path, name, i)
}

fn seg_check(path: &str, name: &str, i: usize, pl: usize, nl: usize) -> (r: bool)
    requires
        pl == path@.len(),
        nl == name@.len(),
        i + nl <= pl,
    ensures
        r == seg_at(path@, name@, i as int),
{
    let start_ok = i == 0 || path.get_char(i - 1) == '/';
    let end_ok = i + nl == pl || path.get_char(i + nl) == '/';
    if start_ok && end_ok {
        let sub = path.substring_char(i, i + nl);
        str_eq(sub, name)
    } else {
        false
    }
}

/// Whether `name` occurs in `path` as a whole `/`-delimited segment: how
/// an endpoint reference in resolved path form is matched against a device
/// name.
pub fn has_path_segment(path: &str, name: &str) -> (r: bool)
    ensures
        r == seg_matches(path@, name@),
{
    let pl = path.unicode_len();
    let nl = name.unicode_len();
    if nl > pl {
        proof {
            assert(forall|i: int| !seg_at(path@, name@, i));
        }
        return false;
    }
    let last = pl - nl;
    if seg_check(path, name, last, pl, nl) {
        return true;
    }
    let mut i: usize = 0;
    while i < last
        invariant
            pl == path@.len(),
            nl == name@.len(),
            nl <= pl,
            last == pl - nl,
            0 <= i <= last,
            !seg_at(path@, name@, last as int),
            forall|j: int| 0 <= j < i ==> !seg_at(path@, name@, j),
        decreases last - i,
    {
        if seg_check(path, name, i, pl, nl) {
            return true;
        }
        i = i + 1;
    }
    proof {
        assert forall|j: int| !seg_at(path@, name@, j) by {
            if 0 <= j && j + name@.len() <= path@.len() {
                assert(j <= last);
            }
        }
    }
    false
}

/// The tokens of `s` between occurrences of `sep`: always one more token
/// than there are separators, so consecutive separators and separators at
/// the ends yield empty tokens.
pub open spec fn split_on(s: Seq<char>, sep: char) -> Seq<Seq<char>>
    decreases s.len(),
{
    if s.len() == 0 {
        seq![s]
    } else if s[0] == sep {
        seq![Seq::<char>::empty()] + split_on(s.subrange(1, s.len() as int), sep)
    } else {
        let rest = split_on(s.subrange(1, s.len() as int), sep);
        rest.update(0, seq![s[0]] + rest[0])
    }
}

/// A split always yields at least one token.
pub proof fn lemma_split_nonempty(s: Seq<char>, sep: char)
    ensures
        split_on(s, sep).len() >= 1,
    decreases s.len(),
{
    if s.len() != 0 {
        lemma_split_nonempty(s.subrange(1, s.len() as int), sep);
    }
}

/// Split `s` at every occurrence of `sep`.
pub fn split_char(s: &str, sep: char) -> (r: Vec<String>)
    ensures
        r.deep_view() == split_on(s@, sep),
        r@.len() >= 1,
    decreases s@.len(),
{
    let n = s.unicode_len();
    if n == 0 {
        let mut v: Vec<String> = Vec::new();
        push_arg(&mut v, String::new());
        proof {
            assert(s@ =~= Seq::<char>::empty());
            assert(v.deep_view() =~= split_on(s@, sep));
        }
        return v;
    }
    let c = s.get_char(0);
    let rest_str = s.substring_char(1, n);
    let mut tail = split_char(rest_str, sep);
    if c == sep {
        let mut v: Vec<String> = Vec::new();
        push_arg(&mut v, String::new());
        proof {
            assert(v.deep_view() =~= seq![Seq::<char>::empty()]);
        }
        let ghost pre_vec = v;
        let ghost tail_vec = tail;
        v.append(&mut tail);
        proof {
            lemma_append_deep_view(v, pre_vec, tail_vec);
            assert(rest_str@ == s@.subrange(1, s@.len() as int));
            assert(split_on(s@, sep) == seq![Seq::<char>::empty()] + split_on(
                s@.subrange(1, s@.len() as int),
                sep,
            ));
            assert(v.deep_view() =~= split_on(s@, sep));
        }
        v
    } else {
        let ghost tail_spec = tail.deep_view();
        let ghost target = tail_spec.update(0, seq![s@[0]] + tail_spec[0]);
        proof {
            lemma_split_nonempty(rest_str@, sep);
            assert(target == split_on(s@, sep));
        }
        let head = s.substring_char(0, 1);
        let mut nf = String::from_str(head);
        nf.append(tail[0].as_str());
        proof {
            assert(head@ =~= seq![s@[0]]);
        }
        let mut out: Vec<String> = Vec::new();
        push_arg(&mut out, nf);
        proof {
            assert(out.deep_view() =~= target.subrange(0, 1));
        }
        let mut i: usize = 1;
        while i < tail.len()
            invariant
                1 <= i <= tail.len(),
                tail.deep_view() == tail_spec,
                target == tail_spec.update(0, seq![s@[0]] + tail_spec[0]),
                target.len() == tail_spec.len(),
                out.deep_view() == target.subrange(0, i as int),
            decreases tail.len() - i,
        {
            push_arg(&mut out, tail[i].clone());
            proof {
                assert(tail@[i as int]@ == tail_spec[i as int]);
                assert(out.deep_view() =~= target.subrange(0, i + 1));
            }
            i = i + 1;
        }
        proof {
            assert(out.deep_view() =~= target);
        }
        out
    }
}

/// The decimal digit character for a value below ten.
pub open spec fn dec_digit(n: nat) -> char
    recommends
        n < 10,
{
    if n == 0 {
        '0'
    } else if n == 1 {
        '1'
    } else if n == 2 {
        '2'
    } else if n == 3 {
        '3'
    } else if n == 4 {
        '4'
    } else if n == 5 {
        '5'
    } else if n == 6 {
        '6'
    } else if n == 7 {
        '7'
    } else if n == 8 {
        '8'
    } else {
        '9'
    }
}

/// The usual decimal rendering of `n`, most significant digit first and
/// without leading zeros (`0` itself is rendered as one digit).
pub open spec fn dec_of(n: nat) -> Seq<char>
    decreases n,
{
    if n < 10 {
        seq![dec_digit(n)]
    } else {
        dec_of(n / 10).push(dec_digit(n % 10))
    }
}

fn digit_str(d: u64) -> (r: &'static str)
    requires
        d < 10,
    ensures
        r@ =~= seq![dec_digit(d as nat)],
{
    proof {
        reveal_strlit("0");
        reveal_strlit("1");
        reveal_strlit("2");
        reveal_strlit("3");
        reveal_strlit("4");
        reveal_strlit("5");
        reveal_strlit("6");
        reveal_strlit("7");
        reveal_strlit("8");
        reveal_strlit("9");
    }
    if d == 0 {
        "0"
    } else if d == 1 {
        "1"
    } else if d == 2 {
        "2"
    } else if d == 3 {
        "3"
    } else if d == 4 {
        "4"
    } else if d == 5 {
        "5"
    } else if d == 6 {
        "6"
    } else if d == 7 {
        "7"
    } else if d == 8 {
        "8"
    } else {
        "9"
    }
}

/// Render `n` in decimal.
pub fn u64_to_dec(n: u64) -> (r: String)
    ensures
        r@ == dec_of(n as nat),
    decreases n,
{
    if n < 10 {
        String::from_str(digit_str(n))
    } else {
        let mut s = u64_to_dec(n / 10);
        s.append(digit_str(n % 10));
        proof {
            assert(s@ =~= dec_of(n as nat));
        }
        s
    }
}

/// Whether `c` is a decimal digit.
pub open spec fn is_dec_digit(c: char) -> bool {
    '0' <= c && c <= '9'
}

/// The value of the digit `c`.
pub open spec fn digit_val(c: char) -> nat
    recommends
        is_dec_digit(c),
{
    (c as nat - '0' as nat) as nat
}

/// Whether `s` is a non-empty run of decimal digits.
pub open spec fn is_dec_seq(s: Seq<char>) -> bool {
    s.len() > 0 && forall|i: int| 0 <= i < s.len() ==> is_dec_digit(s[i])
}

/// The numeric value of the digit run `s`, most significant digit first.
pub open spec fn dec_val(s: Seq<char>) -> nat
    recommends
        is_dec_seq(s),
    decreases s.len(),
{
    if s.len() == 0 {
        0
    } else {
        dec_val(s.drop_last()) * 10 + digit_val(s.last())
    }
}

/// Parse a whole string as an unsigned decimal number, as
/// `str::parse::<u64>` does for plain digit runs: the string must be
/// non-empty, all digits, and its value must fit in a `u64`.
pub fn parse_u64(s: &str) -> (r: Option<u64>)
    ensures
        match r {
            Some(v) => is_dec_seq(s@) && dec_val(s@) == v as nat,
            None => !(is_dec_seq(s@) && dec_val(s@) <= u64::MAX),
        },
{
    let n = s.unicode_len();
    if n == 0 {
        return None;
    }
    let mut acc: u64 = 0;
    let mut i: usize = 0;
    while i < n
        invariant
            0 < n == s@.len(),
            0 <= i <= n,
            forall|j: int| 0 <= j < i ==> is_dec_digit(s@[j]),
            acc as nat == dec_val(s@.subrange(0, i as int)),
        decreases n - i,
    {
        let c = s.get_char(i);
        if !(c >= '0' && c <= '9') {
            return None;
        }
        let d: u64 = (c as u64) - ('0' as u64);
        if acc > (u64::MAX - d) / 10 {
            // The value no longer fits; the digits seen so far already
            // exceed what one more digit could keep inside range.
            proof {
                lemma_dec_val_grows(s@, i as int);
            }
            return None;
        }
        proof {
            assert(s@.subrange(0, i + 1).drop_last() =~= s@.subrange(0, i as int));
        }
        acc = acc * 10 + d;
        i = i + 1;
    }
    proof {
        assert(s@.subrange(0, n as int) =~= s@);
    }
    Some(acc)
}

/// If a digit-run prefix already exceeds `(u64::MAX - d) / 10` before digit
/// `d` at position `i`, the whole run's value exceeds `u64::MAX`.
proof fn lemma_dec_val_grows(s: Seq<char>, i: int)
    requires
        0 <= i < s.len(),
        dec_val(s.subrange(0, i)) * 10 + digit_val(s[i]) > u64::MAX,
    ensures
        dec_val(s) > u64::MAX,
    decreases s.len() - i,
{
    if i == s.len() - 1 {
        assert(s.subrange(0, i) =~= s.drop_last());
    } else {
        assert(s.subrange(0, i + 1).drop_last() =~= s.subrange(0, i));
        assert(dec_val(s.subrange(0, i + 1)) == dec_val(s.subrange(0, i)) * 10 + digit_val(
            s[i],
        ));
        lemma_dec_val_grows(s, i + 1);
    }
}

/// Printing a number in decimal and reading the digits back yields the same
/// number.
pub proof fn lemma_dec_roundtrip(n: nat)
    ensures
        is_dec_seq(dec_of(n)),
        dec_val(dec_of(n)) == n,
    decreases n,
{
    if n < 10 {
        assert(dec_of(n) =~= seq![dec_digit(n)]);
        assert(dec_val(dec_of(n)) == dec_val(seq![dec_digit(n)].drop_last()) * 10 + digit_val(
            dec_digit(n),
        ));
        assert(seq![dec_digit(n)].drop_last() =~= Seq::<char>::empty());
    } else {
        lemma_dec_roundtrip(n / 10);
        assert(dec_of(n).drop_last() =~= dec_of(n / 10));
        assert(dec_of(n).last() == dec_digit(n % 10));
        assert(dec_val(dec_of(n)) == (n / 10) * 10 + n % 10) by {
            assert(dec_val(dec_of(n / 10)) == n / 10);
        }
        assert((n / 10) * 10 + n % 10 == n) by (nonlinear_arith);
    }
}

} // verus!
