//! Natural ("version") ordering of names: maximal runs of ASCII digits compare
//! by numeric value, everything else compares byte by byte, ignoring ASCII case.
use std::cmp::Ordering;
use vstd::prelude::*;
use vstd::string::StringSliceAdditionalSpecFns;

verus! {

/// An ASCII digit byte.
pub open spec fn is_digit(c: u8) -> bool {
    48 <= c && c <= 57
}

/// The byte with ASCII upper case folded to lower case (as an integer key).
pub open spec fn folded(c: u8) -> int {
    if 65 <= c && c <= 90 {
        c + 32
    } else {
        c + 0
    }
}

/// Length of the leading run of ASCII digits.
pub open spec fn leading_digits(s: Seq<u8>) -> int
    decreases s.len(),
{
    if s.len() > 0 && is_digit(s[0]) {
        1 + leading_digits(s.drop_first())
    } else {
        0
    }
}

/// Number of leading `0` bytes.
pub open spec fn leading_zeros(s: Seq<u8>) -> int
    decreases s.len(),
{
    if s.len() > 0 && s[0] == 48 {
        1 + leading_zeros(s.drop_first())
    } else {
        0
    }
}

/// A digit run without its leading zeros, keeping at least one digit.
pub open spec fn stripped(s: Seq<u8>) -> Seq<u8> {
    if s.len() == 0 {
        s
    } else if leading_zeros(s) < s.len() {
        s.skip(leading_zeros(s))
    } else {
        s.skip(s.len() - 1)
    }
}

/// Plain lexicographic byte order.
pub open spec fn bytes_order(a: Seq<u8>, b: Seq<u8>) -> Ordering
    decreases a.len(),
{
    if a.len() == 0 {
        if b.len() == 0 {
            Ordering::Equal
        } else {
            Ordering::Less
        }
    } else if b.len() == 0 {
        Ordering::Greater
    } else if a[0] < b[0] {
        Ordering::Less
    } else if a[0] > b[0] {
        Ordering::Greater
    } else {
        bytes_order(a.drop_first(), b.drop_first())
    }
}

/// Order of two digit runs by numeric value: after dropping leading zeros the
/// longer run is larger, equal lengths compare digit by digit, and equal values
/// are finally ordered by the raw run length (so `9` comes before `09`).
pub open spec fn numeric_order(a: Seq<u8>, b: Seq<u8>) -> Ordering {
    let sa = stripped(a);
    let sb = stripped(b);
    if sa.len() < sb.len() {
        Ordering::Less
    } else if sa.len() > sb.len() {
        Ordering::Greater
    } else if bytes_order(sa, sb) != Ordering::Equal {
        bytes_order(sa, sb)
    } else if a.len() < b.len() {
        Ordering::Less
    } else if a.len() > b.len() {
        Ordering::Greater
    } else {
        Ordering::Equal
    }
}

/// The natural order of two byte strings.
pub open spec fn natural_order(a: Seq<u8>, b: Seq<u8>) -> Ordering
    decreases a.len(),
{
    if a.len() == 0 {
        if b.len() == 0 {
            Ordering::Equal
        } else {
            Ordering::Less
        }
    } else if b.len() == 0 {
        Ordering::Greater
    } else if is_digit(a[0]) && is_digit(b[0]) {
        let na = leading_digits(a);
        let nb = leading_digits(b);
        let c = numeric_order(a.take(na), b.take(nb));
        if c == Ordering::Equal {
            proof {
                lemma_leading_digits(a);
            }
            natural_order(a.skip(na), b.skip(nb))
        } else {
            c
        }
    } else if folded(a[0]) < folded(b[0]) {
        Ordering::Less
    } else if folded(a[0]) > folded(b[0]) {
        Ordering::Greater
    } else {
        natural_order(a.drop_first(), b.drop_first())
    }
}

/// The leading digit run is a prefix of digits followed by a non-digit (or the end).
pub proof fn lemma_leading_digits(s: Seq<u8>)
    ensures
        0 <= leading_digits(s) <= s.len(),
        forall|k: int| 0 <= k < leading_digits(s) ==> is_digit(#[trigger] s[k]),
        leading_digits(s) < s.len() ==> !is_digit(s[leading_digits(s)]),
        s.len() > 0 && is_digit(s[0]) ==> leading_digits(s) >= 1,
    decreases s.len(),
{
    if s.len() > 0 && is_digit(s[0]) {
        lemma_leading_digits(s.drop_first());
        assert forall|k: int| 0 <= k < leading_digits(s) implies is_digit(#[trigger] s[k]) by {
            if k > 0 {
                assert(s[k] == s.drop_first()[k - 1]);
            }
        }
    }
}

/// The leading zero run is a prefix of `0` bytes followed by another byte (or the end).
pub proof fn lemma_leading_zeros(s: Seq<u8>)
    ensures
        0 <= leading_zeros(s) <= s.len(),
        forall|k: int| 0 <= k < leading_zeros(s) ==> #[trigger] s[k] == 48,
        leading_zeros(s) < s.len() ==> s[leading_zeros(s)] != 48,
    decreases s.len(),
{
    if s.len() > 0 && s[0] == 48 {
        lemma_leading_zeros(s.drop_first());
        assert forall|k: int| 0 <= k < leading_zeros(s) implies #[trigger] s[k] == 48 by {
            if k > 0 {
                assert(s[k] == s.drop_first()[k - 1]);
            }
        }
    }
}

fn is_digit_byte(c: u8) -> (r: bool)
    ensures
        r == is_digit(c),
{
    48 <= c && c <= 57
}

/// Length of the leading run of ASCII digits in `s`.
fn digit_run(s: &[u8]) -> (n: usize)
    ensures
        n == leading_digits(s@),
{
    let mut i: usize = 0;
    assert(s@.skip(0) =~= s@);
    while i < s.len() && is_digit_byte(s[i])
        invariant
            i <= s.len(),
            leading_digits(s@) == i + leading_digits(s@.skip(i as int)),
        decreases s.len() - i,
    {
        assert(s@.skip(i as int).drop_first() =~= s@.skip(i + 1));
        i += 1;
    }
    i
}


/// Drop leading `0` bytes, but keep at least one digit (all zeros gives `"0"`).
fn strip_zeros(s: &[u8]) -> (r: &[u8])
    requires
        s@.len() > 0,
    ensures
        r@ == stripped(s@),
{
    let mut i: usize = 0;
    assert(s@.skip(0) =~= s@);
    while i < s.len() && s[i] == 48
        invariant
            i <= s.len(),
            leading_zeros(s@) == i + leading_zeros(s@.skip(i as int)),
        decreases s.len() - i,
    {
        assert(s@.skip(i as int).drop_first() =~= s@.skip(i + 1));
        i += 1;
    }
    let start = if i < s.len() - 1 { i } else { s.len() - 1 };
    &s[start..s.len()]
}

/// Lexicographic comparison of two byte strings.
fn cmp_bytes(a: &[u8], b: &[u8]) -> (r: Ordering)
    ensures
        r == bytes_order(a@, b@),
{
    let mut i: usize = 0;
    let ghost mut k: int = 0;
    assert(a@.skip(0) =~= a@);
    assert(b@.skip(0) =~= b@);
    loop
        invariant
            k == i,
            i <= a.len(),
            i <= b.len(),
            bytes_order(a@, b@) == bytes_order(a@.skip(k), b@.skip(k)),
        decreases a.len() - i,
    {
        if i == a.len() {
            if i == b.len() {
                return Ordering::Equal;
            }
            return Ordering::Less;
        }
        if i == b.len() {
            return Ordering::Greater;
        }
        if a[i] < b[i] {
            return Ordering::Less;
        }
        if a[i] > b[i] {
            return Ordering::Greater;
        }
        assert(a@.skip(k).drop_first() =~= a@.skip(k + 1));
        assert(b@.skip(k).drop_first() =~= b@.skip(k + 1));
        i += 1;
        proof {
            k = k + 1;
        }
    }
}

/// Compare two ASCII-digit runs by numeric value without parsing them: drop
/// leading zeros, then the longer run is the larger number; equal lengths
/// compare byte-wise; a final tie-break on the raw length keeps `9` before `09`.
fn cmp_numeric(a: &[u8], b: &[u8]) -> (r: Ordering)
    requires
        a@.len() > 0,
        b@.len() > 0,
    ensures
        r == numeric_order(a@, b@),
{
    let sa = strip_zeros(a);
    let sb = strip_zeros(b);
    if sa.len() < sb.len() {
        Ordering::Less
    } else if sa.len() > sb.len() {
        Ordering::Greater
    } else {
        let c = cmp_bytes(sa, sb);
        match c {
            Ordering::Equal => {
                if a.len() < b.len() {
                    Ordering::Less
                } else if a.len() > b.len() {
                    Ordering::Greater
                } else {
                    Ordering::Equal
                }
            },
            _ => c,
        }
    }
}

fn fold_byte(c: u8) -> (r: u8)
    ensures
        r == folded(c),
{
    if 65 <= c && c <= 90 {
        c + 32
    } else {
        c
    }
}

/// Natural ("version") comparison of two strings, used as the SQLite `NATSORT`
/// collation for the `name` sort. Maximal runs of ASCII digits compare by
/// numeric value (so `9_foo` sorts before `10_bar`); everything else compares
/// byte by byte, ASCII case-insensitively. Separators such as `_`, `-` and
/// spaces are ordinary bytes.
pub fn natural_cmp(a: &str, b: &str) -> (r: Ordering)
    ensures
        r == natural_order(a.spec_bytes(), b.spec_bytes()),
{
    let mut x: &[u8] = a.as_bytes();
    let mut y: &[u8] = b.as_bytes();
    loop
        invariant
            natural_order(a.spec_bytes(), b.spec_bytes()) == natural_order(x@, y@),
        decreases x@.len(),
    {
        if x.len() == 0 {
            if y.len() == 0 {
                return Ordering::Equal;
            }
            return Ordering::Less;
        }
        if y.len() == 0 {
            return Ordering::Greater;
        }
        let ca = x[0];
        let cb = y[0];
        if is_digit_byte(ca) && is_digit_byte(cb) {
            let na = digit_run(x);
            let nb = digit_run(y);
            proof {
                lemma_leading_digits(x@);
                lemma_leading_digits(y@);
            }
            let c = cmp_numeric(&x[0..na], &y[0..nb]);
            match c {
                Ordering::Equal => {
                    x = &x[na..x.len()];
                    y = &y[nb..y.len()];
                },
                _ => {
                    return c;
                },
            }
        } else {
            let la = fold_byte(ca);
            let lb = fold_byte(cb);
            if la < lb {
                return Ordering::Less;
            }
            if la > lb {
                return Ordering::Greater;
            }
            x = &x[1..x.len()];
            y = &y[1..y.len()];
        }
    }
}


/// The same comparison seen from the other side.
pub open spec fn reversed(o: Ordering) -> Ordering {
    match o {
        Ordering::Less => Ordering::Greater,
        Ordering::Equal => Ordering::Equal,
        Ordering::Greater => Ordering::Less,
    }
}

proof fn lemma_bytes_order_reverse(a: Seq<u8>, b: Seq<u8>)
    ensures
        bytes_order(a, b) == reversed(bytes_order(b, a)),
    decreases a.len(),
{
    if a.len() > 0 && b.len() > 0 && a[0] == b[0] {
        lemma_bytes_order_reverse(a.drop_first(), b.drop_first());
    }
}

proof fn lemma_bytes_order_equal(a: Seq<u8>, b: Seq<u8>)
    ensures
        bytes_order(a, b) == Ordering::Equal <==> a =~= b,
    decreases a.len(),
{
    if a.len() > 0 && b.len() > 0 && a[0] == b[0] {
        lemma_bytes_order_equal(a.drop_first(), b.drop_first());
        if a.drop_first() =~= b.drop_first() {
            assert(a =~= b) by {
                assert forall|k: int| 0 <= k < a.len() implies a[k] == b[k] by {
                    if k > 0 {
                        assert(a[k] == a.drop_first()[k - 1]);
                        assert(b[k] == b.drop_first()[k - 1]);
                    }
                }
            }
        }
        if a =~= b {
            assert(a.drop_first() =~= b.drop_first());
        }
    } else if a.len() > 0 && b.len() > 0 {
        assert(a[0] != b[0]);
    }
}

proof fn lemma_bytes_order_trans(a: Seq<u8>, b: Seq<u8>, c: Seq<u8>)
    requires
        bytes_order(a, b) == Ordering::Less,
        bytes_order(b, c) == Ordering::Less,
    ensures
        bytes_order(a, c) == Ordering::Less,
    decreases a.len(),
{
    if a.len() > 0 && b.len() > 0 && c.len() > 0 && a[0] == b[0] && b[0] == c[0] {
        lemma_bytes_order_trans(a.drop_first(), b.drop_first(), c.drop_first());
    }
}

/// Two digit runs that compare equal numerically are the same run.
proof fn lemma_numeric_equal(a: Seq<u8>, b: Seq<u8>)
    requires
        a.len() > 0,
        b.len() > 0,
    ensures
        numeric_order(a, b) == Ordering::Equal <==> a =~= b,
{
    lemma_leading_zeros(a);
    lemma_leading_zeros(b);
    lemma_bytes_order_equal(stripped(a), stripped(b));
    if a =~= b {
    } else if numeric_order(a, b) == Ordering::Equal {
        let ma = a.len() - stripped(a).len();
        let mb = b.len() - stripped(b).len();
        assert(ma == mb);
        assert forall|k: int| 0 <= k < a.len() implies a[k] == b[k] by {
            if k < ma {
                assert(a[k] == 48);
                assert(b[k] == 48);
            } else {
                assert(a[k] == stripped(a)[k - ma]);
                assert(b[k] == stripped(b)[k - mb]);
            }
        }
        assert(a =~= b);
    }
}

proof fn lemma_numeric_reverse(a: Seq<u8>, b: Seq<u8>)
    ensures
        numeric_order(a, b) == reversed(numeric_order(b, a)),
{
    lemma_bytes_order_reverse(stripped(a), stripped(b));
}

proof fn lemma_numeric_trans(a: Seq<u8>, b: Seq<u8>, c: Seq<u8>)
    requires
        numeric_order(a, b) == Ordering::Less,
        numeric_order(b, c) == Ordering::Less,
    ensures
        numeric_order(a, c) == Ordering::Less,
{
    let (sa, sb, sc) = (stripped(a), stripped(b), stripped(c));
    lemma_bytes_order_equal(sa, sb);
    lemma_bytes_order_equal(sb, sc);
    lemma_bytes_order_equal(sa, sc);
    if sa.len() == sb.len() && sb.len() == sc.len() {
        if bytes_order(sa, sb) == Ordering::Less && bytes_order(sb, sc) == Ordering::Less {
            lemma_bytes_order_trans(sa, sb, sc);
        }
    }
}


/// Each byte with ASCII case folded away.
pub open spec fn fold_all(s: Seq<u8>) -> Seq<int> {
    Seq::new(s.len(), |i: int| folded(s[i]))
}

/// The comparison of the first tokens of two non-empty byte strings: two digit
/// runs by numeric value, anything else by the case-folded first byte.
spec fn head_order(x: Seq<u8>, y: Seq<u8>) -> Ordering {
    if is_digit(x[0]) && is_digit(y[0]) {
        numeric_order(x.take(leading_digits(x)), y.take(leading_digits(y)))
    } else if folded(x[0]) < folded(y[0]) {
        Ordering::Less
    } else if folded(x[0]) > folded(y[0]) {
        Ordering::Greater
    } else {
        Ordering::Equal
    }
}

/// What follows the first token of a non-empty byte string.
spec fn rest(x: Seq<u8>) -> Seq<u8> {
    if is_digit(x[0]) {
        x.skip(leading_digits(x))
    } else {
        x.drop_first()
    }
}

proof fn lemma_folded(c: u8)
    ensures
        is_digit(c) ==> folded(c) == c,
        !is_digit(c) ==> !(48 <= folded(c) <= 57),
{
}

/// A run length that has the shape of the leading digit run is that run.
proof fn lemma_leading_digits_unique(s: Seq<u8>, n: int)
    requires
        0 <= n <= s.len(),
        forall|k: int| 0 <= k < n ==> is_digit(#[trigger] s[k]),
        n < s.len() ==> !is_digit(s[n]),
    ensures
        leading_digits(s) == n,
{
    lemma_leading_digits(s);
    let l = leading_digits(s);
    if l < n {
        assert(is_digit(s[l]));
    } else if l > n {
        assert(is_digit(s[n]));
    }
}

proof fn lemma_unfold(x: Seq<u8>, y: Seq<u8>)
    requires
        x.len() > 0,
        y.len() > 0,
    ensures
        natural_order(x, y) == if head_order(x, y) != Ordering::Equal {
            head_order(x, y)
        } else {
            natural_order(rest(x), rest(y))
        },
        rest(x).len() < x.len(),
        head_order(x, y) == Ordering::Equal ==> (is_digit(x[0]) <==> is_digit(y[0])),
{
    lemma_leading_digits(x);
    lemma_leading_digits(y);
    lemma_folded(x[0]);
    lemma_folded(y[0]);
}

proof fn lemma_head_reverse(x: Seq<u8>, y: Seq<u8>)
    requires
        x.len() > 0,
        y.len() > 0,
    ensures
        head_order(x, y) == reversed(head_order(y, x)),
{
    lemma_numeric_reverse(x.take(leading_digits(x)), y.take(leading_digits(y)));
}

proof fn lemma_head_trans(x: Seq<u8>, y: Seq<u8>, z: Seq<u8>)
    requires
        x.len() > 0,
        y.len() > 0,
        z.len() > 0,
        head_order(x, y) != Ordering::Greater,
        head_order(y, z) != Ordering::Greater,
    ensures
        head_order(x, z) != Ordering::Greater,
        head_order(x, y) == Ordering::Less || head_order(y, z) == Ordering::Less ==> head_order(
            x,
            z,
        ) == Ordering::Less,
{
    lemma_leading_digits(x);
    lemma_leading_digits(y);
    lemma_leading_digits(z);
    lemma_folded(x[0]);
    lemma_folded(y[0]);
    lemma_folded(z[0]);
    let rx = x.take(leading_digits(x));
    let ry = y.take(leading_digits(y));
    let rz = z.take(leading_digits(z));
    if is_digit(x[0]) && is_digit(y[0]) && is_digit(z[0]) {
        lemma_numeric_equal(rx, ry);
        lemma_numeric_equal(ry, rz);
        lemma_numeric_equal(rx, rz);
        if numeric_order(rx, ry) == Ordering::Less && numeric_order(ry, rz) == Ordering::Less {
            lemma_numeric_trans(rx, ry, rz);
        }
    }
}

/// Case-folded equal strings have the same leading digit run, byte for byte.
proof fn lemma_fold_same_run(x: Seq<u8>, y: Seq<u8>)
    requires
        fold_all(x) == fold_all(y),
    ensures
        leading_digits(x) == leading_digits(y),
        x.take(leading_digits(x)) =~= y.take(leading_digits(y)),
        fold_all(x.skip(leading_digits(x))) == fold_all(y.skip(leading_digits(y))),
        x.len() > 0 ==> fold_all(x.drop_first()) == fold_all(y.drop_first()),
{
    lemma_leading_digits(x);
    let n = leading_digits(x);
    assert(x.len() == fold_all(x).len());
    assert(y.len() == fold_all(y).len());
    assert forall|k: int| 0 <= k < x.len() implies folded(#[trigger] x[k]) == folded(y[k]) by {
        assert(fold_all(x)[k] == folded(x[k]));
        assert(fold_all(y)[k] == folded(y[k]));
        assert(fold_all(x)[k] == fold_all(y)[k]);
    }
    assert forall|k: int| 0 <= k < n implies is_digit(#[trigger] y[k]) && y[k] == x[k] by {
        lemma_folded(x[k]);
        lemma_folded(y[k]);
        assert(folded(x[k]) == folded(y[k]));
    }
    if n < y.len() {
        lemma_folded(x[n]);
        lemma_folded(y[n]);
        assert(folded(x[n]) == folded(y[n]));
    }
    lemma_leading_digits_unique(y, n);
    assert(fold_all(x.skip(n)) =~= fold_all(y.skip(n))) by {
        assert forall|k: int| 0 <= k < x.len() - n implies fold_all(x.skip(n))[k] == fold_all(
            y.skip(n),
        )[k] by {
            assert(folded(x[k + n]) == folded(y[k + n]));
        }
    }
    if x.len() > 0 {
        assert(fold_all(x.drop_first()) =~= fold_all(y.drop_first())) by {
            assert forall|k: int| 0 <= k < x.len() - 1 implies fold_all(x.drop_first())[k]
                == fold_all(y.drop_first())[k] by {
                assert(folded(x[k + 1]) == folded(y[k + 1]));
            }
        }
    }
}

/// Law: comparing `a` with `b` gives the reverse of comparing `b` with `a`.
pub proof fn lemma_natural_reverse(a: Seq<u8>, b: Seq<u8>)
    ensures
        natural_order(a, b) == reversed(natural_order(b, a)),
    decreases a.len(),
{
    if a.len() > 0 && b.len() > 0 {
        lemma_unfold(a, b);
        lemma_unfold(b, a);
        lemma_head_reverse(a, b);
        if head_order(a, b) == Ordering::Equal {
            lemma_natural_reverse(rest(a), rest(b));
        }
    }
}

/// Law: two strings compare equal exactly when they are the same up to ASCII
/// case (digit runs must match byte for byte, leading zeros included).
pub proof fn lemma_natural_equal(a: Seq<u8>, b: Seq<u8>)
    ensures
        natural_order(a, b) == Ordering::Equal <==> fold_all(a) == fold_all(b),
    decreases a.len(),
{
    if a.len() == 0 || b.len() == 0 {
        if fold_all(a) == fold_all(b) {
            assert(fold_all(a).len() == fold_all(b).len());
        }
        if a.len() == 0 && b.len() == 0 {
            assert(fold_all(a) =~= fold_all(b));
        }
    } else {
        lemma_unfold(a, b);
        lemma_leading_digits(a);
        lemma_leading_digits(b);
        lemma_folded(a[0]);
        lemma_folded(b[0]);
        let na = leading_digits(a);
        let nb = leading_digits(b);
        if fold_all(a) == fold_all(b) {
            lemma_fold_same_run(a, b);
            assert(folded(a[0]) == fold_all(a)[0]);
            assert(folded(b[0]) == fold_all(b)[0]);
            if is_digit(a[0]) {
                lemma_numeric_equal(a.take(na), b.take(nb));
            }
            lemma_natural_equal(rest(a), rest(b));
            assert(head_order(a, b) == Ordering::Equal);
        } else if head_order(a, b) == Ordering::Equal {
            lemma_natural_equal(rest(a), rest(b));
            if fold_all(rest(a)) == fold_all(rest(b)) {
                assert(fold_all(rest(a)).len() == fold_all(rest(b)).len());
                if is_digit(a[0]) {
                    lemma_numeric_equal(a.take(na), b.take(nb));
                    assert(na == nb);
                    assert(a.len() == b.len());
                    assert forall|k: int| 0 <= k < a.len() implies fold_all(a)[k] == fold_all(
                        b,
                    )[k] by {
                        if k < na {
                            assert(a[k] == a.take(na)[k]);
                            assert(b[k] == b.take(nb)[k]);
                        } else {
                            assert(fold_all(rest(a))[k - na] == fold_all(rest(b))[k - na]);
                            assert(rest(a)[k - na] == a[k]);
                            assert(rest(b)[k - na] == b[k]);
                        }
                    }
                } else {
                    assert(a.len() == b.len());
                    assert forall|k: int| 0 <= k < a.len() implies fold_all(a)[k] == fold_all(
                        b,
                    )[k] by {
                        if k > 0 {
                            assert(fold_all(rest(a))[k - 1] == fold_all(rest(b))[k - 1]);
                            assert(rest(a)[k - 1] == a[k]);
                            assert(rest(b)[k - 1] == b[k]);
                        }
                    }
                }
                assert(fold_all(a) =~= fold_all(b));
            }
        }
    }
}

/// Law: the natural order is transitive; with a strict step anywhere the
/// result is strict.
pub proof fn lemma_natural_trans(a: Seq<u8>, b: Seq<u8>, c: Seq<u8>)
    requires
        natural_order(a, b) != Ordering::Greater,
        natural_order(b, c) != Ordering::Greater,
    ensures
        natural_order(a, c) != Ordering::Greater,
        natural_order(a, b) == Ordering::Less || natural_order(b, c) == Ordering::Less
            ==> natural_order(a, c) == Ordering::Less,
    decreases a.len(),
{
    if a.len() > 0 && b.len() > 0 && c.len() > 0 {
        lemma_unfold(a, b);
        lemma_unfold(b, c);
        lemma_unfold(a, c);
        lemma_head_trans(a, b, c);
        if head_order(a, b) == Ordering::Equal && head_order(b, c) == Ordering::Equal {
            lemma_natural_trans(rest(a), rest(b), rest(c));
        }
    }
}

/// The natural order depends only on the ASCII-case-folded bytes.
proof fn lemma_natural_congruent(a: Seq<u8>, b: Seq<u8>, a2: Seq<u8>, b2: Seq<u8>)
    requires
        fold_all(a) == fold_all(a2),
        fold_all(b) == fold_all(b2),
    ensures
        natural_order(a, b) == natural_order(a2, b2),
    decreases a.len(),
{
    assert(a.len() == fold_all(a).len() && a2.len() == fold_all(a2).len());
    assert(b.len() == fold_all(b).len() && b2.len() == fold_all(b2).len());
    if a.len() > 0 && b.len() > 0 {
        lemma_unfold(a, b);
        lemma_unfold(a2, b2);
        lemma_fold_same_run(a, a2);
        lemma_fold_same_run(b, b2);
        assert(fold_all(a)[0] == folded(a[0]));
        assert(fold_all(a2)[0] == folded(a2[0]));
        assert(fold_all(b)[0] == folded(b[0]));
        assert(fold_all(b2)[0] == folded(b2[0]));
        lemma_folded(a[0]);
        lemma_folded(a2[0]);
        lemma_folded(b[0]);
        lemma_folded(b2[0]);
        assert(folded(a[0]) == folded(a2[0]));
        assert(folded(b[0]) == folded(b2[0]));
        assert(is_digit(a[0]) <==> is_digit(a2[0]));
        assert(is_digit(b[0]) <==> is_digit(b2[0]));
        assert(a.take(leading_digits(a)) == a2.take(leading_digits(a2)));
        assert(b.take(leading_digits(b)) == b2.take(leading_digits(b2)));
        assert(head_order(a, b) == head_order(a2, b2));
        if head_order(a, b) == Ordering::Equal {
            lemma_natural_congruent(rest(a), rest(b), rest(a2), rest(b2));
        }
    }
}

/// The bytes with ASCII upper case letters made lower case
/// (`str::to_ascii_lowercase` on the bytes of a string).
pub open spec fn ascii_lowercase(s: Seq<u8>) -> Seq<u8> {
    Seq::new(
        s.len(),
        |i: int|
            if 65 <= s[i] <= 90 {
                (s[i] + 32) as u8
            } else {
                s[i]
            },
    )
}

/// Law: lowercasing both strings (ASCII) does not change their natural order.
pub proof fn lemma_natural_lowercase(a: Seq<u8>, b: Seq<u8>)
    ensures
        natural_order(ascii_lowercase(a), ascii_lowercase(b)) == natural_order(a, b),
{
    assert(fold_all(ascii_lowercase(a)) =~= fold_all(a));
    assert(fold_all(ascii_lowercase(b)) =~= fold_all(b));
    lemma_natural_congruent(ascii_lowercase(a), ascii_lowercase(b), a, b);
}

/// Every byte is an ASCII digit.
pub open spec fn all_digits(s: Seq<u8>) -> bool {
    forall|i: int| 0 <= i < s.len() ==> is_digit(#[trigger] s[i])
}

/// The decimal value of a run of ASCII digits.
pub open spec fn digits_value(s: Seq<u8>) -> int
    decreases s.len(),
{
    if s.len() == 0 {
        0
    } else {
        10 * digits_value(s.drop_last()) + (s.last() - 48)
    }
}

/// Ten to the power `n`.
pub open spec fn pow10(n: int) -> int
    decreases n,
{
    if n <= 0 {
        1
    } else {
        10 * pow10(n - 1)
    }
}

proof fn lemma_pow10_mono(m: int, n: int)
    requires
        0 <= m <= n,
    ensures
        1 <= pow10(m) <= pow10(n),
    decreases n,
{
    if n > m {
        lemma_pow10_mono(m, n - 1);
    } else if n > 0 {
        lemma_pow10_mono(0, n - 1);
    }
}

proof fn lemma_all_digits_sub(s: Seq<u8>, lo: int, hi: int)
    requires
        all_digits(s),
        0 <= lo <= hi <= s.len(),
    ensures
        all_digits(s.subrange(lo, hi)),
{
    assert forall|i: int| 0 <= i < hi - lo implies is_digit(#[trigger] s.subrange(lo, hi)[i]) by {
        assert(s.subrange(lo, hi)[i] == s[lo + i]);
    }
}

/// A run of `n` digits is worth less than `10^n`, and at least `10^(n-1)`
/// when it does not start with `0`.
proof fn lemma_value_bounds(s: Seq<u8>)
    requires
        all_digits(s),
    ensures
        0 <= digits_value(s) < pow10(s.len() as int),
        s.len() > 0 && s[0] != 48 ==> digits_value(s) >= pow10(s.len() - 1),
    decreases s.len(),
{
    if s.len() > 0 {
        let init = s.drop_last();
        lemma_all_digits_sub(s, 0, s.len() - 1);
        assert(init =~= s.subrange(0, s.len() - 1));
        lemma_value_bounds(init);
        assert(is_digit(s[s.len() - 1]));
        if s.len() > 1 {
            assert(init[0] == s[0]);
        }
    }
}

/// The value of a run is its first digit times `10^(n-1)` plus the value of
/// the rest.
proof fn lemma_value_front(s: Seq<u8>)
    requires
        s.len() > 0,
    ensures
        digits_value(s) == (s[0] - 48) * pow10(s.len() - 1) + digits_value(s.drop_first()),
    decreases s.len(),
{
    if s.len() == 1 {
        assert(s.drop_first().len() == 0);
        assert(s.drop_last().len() == 0);
        assert(digits_value(s.drop_last()) == 0);
        assert(digits_value(s.drop_first()) == 0);
        assert(s.last() == s[0]);
        assert(pow10(0) == 1);
        let d = s[0] - 48;
        assert(d * 1 == d) by (nonlinear_arith);
    } else {
        let init = s.drop_last();
        lemma_value_front(init);
        assert(init[0] == s[0]);
        assert(s.drop_first().drop_last() =~= init.drop_first());
        assert(s.drop_first().last() == s.last());
        let d = s[0] - 48;
        let p = pow10(s.len() - 2);
        assert(pow10(s.len() - 1) == 10 * p);
        assert(10 * (d * p) == d * (10 * p)) by (nonlinear_arith);
        assert(digits_value(s) == 10 * digits_value(init) + (s.last() - 48));
        assert(digits_value(s.drop_first()) == 10 * digits_value(init.drop_first()) + (s.last()
            - 48));
    }
}

/// Leading zeros do not change the value of a run.
proof fn lemma_value_skip_zeros(s: Seq<u8>, k: int)
    requires
        0 <= k <= s.len(),
        forall|i: int| 0 <= i < k ==> s[i] == 48,
    ensures
        digits_value(s) == digits_value(s.skip(k)),
    decreases k,
{
    if k > 0 {
        lemma_value_front(s);
        let d = s[0] - 48;
        let p = pow10(s.len() - 1);
        assert(d * p == 0) by (nonlinear_arith)
            requires
                d == 0,
        ;
        let t = s.drop_first();
        assert forall|i: int| 0 <= i < k - 1 implies t[i] == 48 by {
            assert(t[i] == s[i + 1]);
        }
        lemma_value_skip_zeros(t, k - 1);
        assert(t.skip(k - 1) =~= s.skip(k));
    } else {
        assert(s.skip(0) =~= s);
    }
}

/// Among runs of equal length, the lexicographically smaller is worth less.
proof fn lemma_value_lex(t: Seq<u8>, u: Seq<u8>)
    requires
        all_digits(t),
        all_digits(u),
        t.len() == u.len(),
        bytes_order(t, u) == Ordering::Less,
    ensures
        digits_value(t) < digits_value(u),
    decreases t.len(),
{
    lemma_value_front(t);
    lemma_value_front(u);
    let n: int = t.len() - 0;
    lemma_all_digits_sub(t, 1, n);
    lemma_all_digits_sub(u, 1, n);
    assert(t.drop_first() =~= t.subrange(1, n));
    assert(u.drop_first() =~= u.subrange(1, n));
    lemma_value_bounds(t.drop_first());
    lemma_value_bounds(u.drop_first());
    lemma_pow10_mono(0, n - 1);
    let p = pow10(n - 1);
    let dt = t[0] - 48;
    let du = u[0] - 48;
    if t[0] < u[0] {
        assert(dt * p + p <= du * p) by (nonlinear_arith)
            requires
                dt + 1 <= du,
                p >= 1,
        ;
    } else {
        lemma_value_lex(t.drop_first(), u.drop_first());
    }
}

/// The value of a run is the value of the run without its leading zeros.
proof fn lemma_value_stripped(s: Seq<u8>)
    requires
        s.len() > 0,
        all_digits(s),
    ensures
        digits_value(stripped(s)) == digits_value(s),
        all_digits(stripped(s)),
        stripped(s).len() >= 1,
        stripped(s).len() > 1 ==> stripped(s)[0] != 48,
{
    lemma_leading_zeros(s);
    let z = leading_zeros(s);
    if z < s.len() {
        lemma_value_skip_zeros(s, z);
        assert(s.skip(z) =~= s.subrange(z, s.len() as int));
        lemma_all_digits_sub(s, z, s.len() as int);
    } else {
        lemma_value_skip_zeros(s, s.len() - 1);
        assert(s.skip(s.len() - 1) =~= s.subrange(s.len() - 1, s.len() as int));
        lemma_all_digits_sub(s, s.len() - 1, s.len() as int);
    }
}

proof fn lemma_numeric_less(a: Seq<u8>, b: Seq<u8>)
    requires
        a.len() > 0,
        b.len() > 0,
        all_digits(a),
        all_digits(b),
        digits_value(a) < digits_value(b),
    ensures
        numeric_order(a, b) == Ordering::Less,
{
    let sa = stripped(a);
    let sb = stripped(b);
    lemma_value_stripped(a);
    lemma_value_stripped(b);
    lemma_value_bounds(sa);
    lemma_value_bounds(sb);
    if sa.len() > sb.len() {
        lemma_pow10_mono(sb.len() - 0, sa.len() - 1);
        assert(false);
    } else if sa.len() == sb.len() {
        lemma_bytes_order_equal(sa, sb);
        lemma_bytes_order_reverse(sa, sb);
        if bytes_order(sa, sb) == Ordering::Greater {
            lemma_value_lex(sb, sa);
        }
    }
}

/// Law: runs of digits are in the natural order of their decimal values: the
/// one worth less comes first (so `img19` sorts before `img20`, and `9`
/// before `10`).
pub proof fn lemma_natural_numeric(a: Seq<u8>, b: Seq<u8>)
    requires
        a.len() > 0,
        b.len() > 0,
        all_digits(a),
        all_digits(b),
        digits_value(a) < digits_value(b),
    ensures
        natural_order(a, b) == Ordering::Less,
{
    lemma_leading_digits_unique(a, a.len() - 0);
    lemma_leading_digits_unique(b, b.len() - 0);
    assert(a.take(a.len() - 0) =~= a);
    assert(b.take(b.len() - 0) =~= b);
    lemma_numeric_less(a, b);
}

/// Law: between the same non-digit prefix, and before anything that does not
/// continue the digits, the name with the smaller number comes first
/// (`img19.jpg` before `img20.jpg`, `img9.jpg` before `img10.jpg`).
pub proof fn lemma_natural_numeric_in_names(p: Seq<u8>, a: Seq<u8>, x: Seq<u8>, b: Seq<u8>, y: Seq<u8>)
    requires
        forall|i: int| 0 <= i < p.len() ==> !is_digit(#[trigger] p[i]),
        a.len() > 0,
        b.len() > 0,
        all_digits(a),
        all_digits(b),
        digits_value(a) < digits_value(b),
        x.len() > 0 ==> !is_digit(x[0]),
        y.len() > 0 ==> !is_digit(y[0]),
    ensures
        natural_order(p + a + x, p + b + y) == Ordering::Less,
    decreases p.len(),
{
    let s = p + a + x;
    let t = p + b + y;
    if p.len() == 0 {
        assert(s =~= a + x);
        assert(t =~= b + y);
        assert forall|k: int| 0 <= k < a.len() implies is_digit(#[trigger] s[k]) by {
            assert(s[k] == a[k]);
        }
        assert forall|k: int| 0 <= k < b.len() implies is_digit(#[trigger] t[k]) by {
            assert(t[k] == b[k]);
        }
        if a.len() < s.len() {
            assert(s[a.len() - 0] == x[0]);
        }
        if b.len() < t.len() {
            assert(t[b.len() - 0] == y[0]);
        }
        lemma_leading_digits_unique(s, a.len() - 0);
        lemma_leading_digits_unique(t, b.len() - 0);
        assert(s.take(a.len() - 0) =~= a);
        assert(t.take(b.len() - 0) =~= b);
        assert(is_digit(s[0]) && is_digit(t[0]));
        lemma_numeric_less(a, b);
    } else {
        let q = p.drop_first();
        assert forall|i: int| 0 <= i < q.len() implies !is_digit(#[trigger] q[i]) by {
            assert(q[i] == p[i + 1]);
        }
        assert(s[0] == p[0] && t[0] == p[0]);
        assert(s.drop_first() =~= q + a + x);
        assert(t.drop_first() =~= q + b + y);
        lemma_natural_numeric_in_names(q, a, x, b, y);
    }
}

} // verus!
