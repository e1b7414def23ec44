//! Text of labels: decimal rendering of counters and the order in which pile
//! numbers and queue numbers are compared.

use vstd::prelude::*;
use vstd::string::*;

verus! {

/// The character that writes the digit `d`.
pub open spec fn digit_char(d: int) -> char {
    if d == 0 {
        '0'
    } else if d == 1 {
        '1'
    } else if d == 2 {
        '2'
    } else if d == 3 {
        '3'
    } else if d == 4 {
        '4'
    } else if d == 5 {
        '5'
    } else if d == 6 {
        '6'
    } else if d == 7 {
        '7'
    } else if d == 8 {
        '8'
    } else {
        '9'
    }
}

/// The decimal numeral of `n`, without leading zeros.
pub open spec fn decimal(n: nat) -> Seq<char>
    decreases n,
{
    if n < 10 {
        seq![digit_char(n as int)]
    } else {
        decimal(n / 10).push(digit_char((n % 10) as int))
    }
}

fn digit_str(d: u8) -> (s: &'static str)
    requires
        d < 10,
    ensures
        s@ == seq![digit_char(d as int)],
{
    proof {
        reveal_strlit("0");
        reveal_strlit("1");
        reveal_strlit("2");
        reveal_strlit("3");
        reveal_strlit("4");
        reveal_strlit("5");
        reveal_strlit("6");
        reveal_strlit("7");
        reveal_strlit("8");
        reveal_strlit("9");
    }
    let s = if d == 0 {
        "0"
    } else if d == 1 {
        "1"
    } else if d == 2 {
        "2"
    } else if d == 3 {
        "3"
    } else if d == 4 {
        "4"
    } else if d == 5 {
        "5"
    } else if d == 6 {
        "6"
    } else if d == 7 {
        "7"
    } else if d == 8 {
        "8"
    } else {
        "9"
    };
    assert(s@ =~= seq![digit_char(d as int)]);
    s
}

/// Writes `n` as a decimal numeral.
pub fn decimal_string(n: u128) -> (s: String)
    ensures
        s@ == decimal(n as nat),
    decreases n,
{
    if n < 10 {
        String::from_str(digit_str(n as u8))
    } else {
        let mut s = decimal_string(n / 10);
        s.append(digit_str((n % 10) as u8));
        assert(s@ =~= decimal(n as nat));
        s
    }
}

/// The character that writes the hexadecimal digit `d`, in lower case.
pub open spec fn hex_digit_char(d: int) -> char {
    if d < 10 {
        digit_char(d)
    } else if d == 10 {
        'a'
    } else if d == 11 {
        'b'
    } else if d == 12 {
        'c'
    } else if d == 13 {
        'd'
    } else if d == 14 {
        'e'
    } else {
        'f'
    }
}

/// The bytes written in hexadecimal, two digits in lower case for each
/// byte, the higher digit first.
pub open spec fn hex(bytes: Seq<u8>) -> Seq<char>
    decreases bytes.len(),
{
    if bytes.len() == 0 {
        Seq::empty()
    } else {
        hex(bytes.drop_last()).push(hex_digit_char(bytes.last() as int / 16)).push(
            hex_digit_char(bytes.last() as int % 16),
        )
    }
}

fn hex_digit_str(d: u8) -> (s: &'static str)
    requires
        d < 16,
    ensures
        s@ == seq![hex_digit_char(d as int)],
{
    if d < 10 {
        digit_str(d)
    } else {
        proof {
            reveal_strlit("a");
            reveal_strlit("b");
            reveal_strlit("c");
            reveal_strlit("d");
            reveal_strlit("e");
            reveal_strlit("f");
        }
        let s = if d == 10 {
            "a"
        } else if d == 11 {
            "b"
        } else if d == 12 {
            "c"
        } else if d == 13 {
            "d"
        } else if d == 14 {
            "e"
        } else {
            "f"
        };
        assert(s@ =~= seq![hex_digit_char(d as int)]);
        s
    }
}

/// Writes bytes in hexadecimal, two digits in lower case for each byte.
pub fn hex_string(bytes: &Vec<u8>) -> (s: String)
    ensures
        s@ == hex(bytes@),
{
    let mut s = String::new();
    let mut i: usize = 0;
    while i < bytes.len()
        invariant
            i <= bytes.len(),
            s@ == hex(bytes@.take(i as int)),
        decreases bytes.len() - i,
    {
        let byte = bytes[i];
        proof {
            assert(bytes@.take(i + 1).drop_last() =~= bytes@.take(i as int));
        }
        s.append(hex_digit_str(byte / 16));
        s.append(hex_digit_str(byte % 16));
        proof {
            assert(s@ =~= hex(bytes@.take(i + 1)));
        }
        i += 1;
    }
    proof {
        assert(bytes@.take(i as int) =~= bytes@);
    }
    s
}

/// Whether label `a` comes before label `b`: a shorter label comes first, and
/// of two labels of one length the one with the smaller character at the
/// first place where they differ. Numerals without leading zeros behind a
/// common prefix are thereby ordered by their value.
pub open spec fn precedes(a: Seq<char>, b: Seq<char>) -> bool {
    a.len() < b.len() || (a.len() == b.len() && exists|k: int| differ_first_at(a, b, k) &&
        (a[k] as int) < (b[k] as int))
}

/// `k` is the first place at which `a` and `b` hold different characters.
pub open spec fn differ_first_at(a: Seq<char>, b: Seq<char>, k: int) -> bool {
    &&& 0 <= k < a.len()
    &&& k < b.len()
    &&& a[k] != b[k]
    &&& forall|j: int| 0 <= j < k ==> a[j] == b[j]
}

/// No label comes before itself.
pub proof fn lemma_precedes_irreflexive(a: Seq<char>)
    ensures
        !precedes(a, a),
{
}

/// Of two different labels exactly one comes before the other.
pub proof fn lemma_precedes_total(a: Seq<char>, b: Seq<char>)
    ensures
        a == b || precedes(a, b) || precedes(b, a),
        !(precedes(a, b) && precedes(b, a)),
{
    if a.len() == b.len() {
        if a =~= b {
        } else {
            let k = first_difference(a, b, 0);
            lemma_first_difference(a, b, 0);
            assert(differ_first_at(b, a, k));
        }
        if precedes(a, b) && precedes(b, a) {
            let k1 = choose|k: int| differ_first_at(a, b, k) && (a[k] as int) < (b[k] as int);
            let k2 = choose|k: int| differ_first_at(b, a, k) && (b[k] as int) < (a[k] as int);
            assert(k1 == k2) by {
                if k1 < k2 {
                    assert(b[k1] == a[k1]);
                } else if k2 < k1 {
                    assert(a[k2] == b[k2]);
                }
            }
        }
    }
}

/// The order of labels is transitive.
pub proof fn lemma_precedes_transitive(a: Seq<char>, b: Seq<char>, c: Seq<char>)
    requires
        precedes(a, b),
        precedes(b, c),
    ensures
        precedes(a, c),
{
    if a.len() == b.len() && b.len() == c.len() {
        let k1 = choose|k: int| differ_first_at(a, b, k) && (a[k] as int) < (b[k] as int);
        let k2 = choose|k: int| differ_first_at(b, c, k) && (b[k] as int) < (c[k] as int);
        let k = if k1 <= k2 { k1 } else { k2 };
        assert(differ_first_at(a, c, k) && (a[k] as int) < (c[k] as int)) by {
            assert forall|j: int| 0 <= j < k implies a[j] == c[j] by {
                assert(a[j] == b[j]);
                assert(b[j] == c[j]);
            }
            if k1 < k2 {
                assert(b[k1] == c[k1]);
            }
            if k2 < k1 {
                assert(a[k2] == b[k2]);
            }
        }
    }
}

/// A numeral has at least one digit, and one digit only below ten.
pub proof fn lemma_decimal_length(n: nat)
    ensures
        decimal(n).len() >= 1,
        n < 10 <==> decimal(n).len() == 1,
    decreases n,
{
    if n >= 10 {
        lemma_decimal_length(n / 10);
    }
}

/// The numeral of a smaller number comes before that of a larger one: the
/// order of labels agrees with the order of the numbers they write.
pub proof fn lemma_decimal_ascends(n: nat, m: nat)
    requires
        n < m,
    ensures
        precedes(decimal(n), decimal(m)),
    decreases m,
{
    lemma_decimal_length(n);
    lemma_decimal_length(m);
    let a = decimal(n);
    let b = decimal(m);
    if m < 10 {
        assert(differ_first_at(a, b, 0));
        assert((a[0] as int) < (b[0] as int));
    } else if n < 10 {
    } else {
        let x = decimal(n / 10);
        let y = decimal(m / 10);
        if n / 10 < m / 10 {
            lemma_decimal_ascends(n / 10, m / 10);
            if x.len() == y.len() {
                let k = choose|k: int| differ_first_at(x, y, k) && (x[k] as int) < (y[k] as int);
                assert(differ_first_at(a, b, k)) by {
                    assert forall|j: int| 0 <= j < k implies a[j] == b[j] by {
                        assert(x[j] == y[j]);
                    }
                }
                assert((a[k] as int) < (b[k] as int));
            }
        } else {
            assert(n / 10 == m / 10);
            let k = x.len() as int;
            assert(differ_first_at(a, b, k));
            assert((a[k] as int) < (b[k] as int));
        }
    }
}

/// The first index from `from` on at which two different sequences of one
/// length differ.
pub open spec fn first_difference(a: Seq<char>, b: Seq<char>, from: int) -> int
    decreases a.len() - from,
{
    if from < 0 || from >= a.len() || from >= b.len() || a[from] != b[from] {
        from
    } else {
        first_difference(a, b, from + 1)
    }
}

proof fn lemma_first_difference(a: Seq<char>, b: Seq<char>, from: int)
    requires
        a.len() == b.len(),
        0 <= from <= a.len(),
        forall|j: int| 0 <= j < from ==> a[j] == b[j],
        a != b,
    ensures
        differ_first_at(a, b, first_difference(a, b, from)),
    decreases a.len() - from,
{
    if from >= a.len() {
        assert(a =~= b);
    } else if a[from] != b[from] {
    } else {
        lemma_first_difference(a, b, from + 1);
    }
}

/// Decides `precedes` on two strings.
pub fn label_precedes(a: &str, b: &str) -> (r: bool)
    ensures
        r == precedes(a@, b@),
{
    let la = a.unicode_len();
    let lb = b.unicode_len();
    if la < lb {
        return true;
    }
    if la > lb {
        return false;
    }
    let mut i: usize = 0;
    while i < la
        invariant
            la == a@.len(),
            lb == b@.len(),
            la == lb,
            i <= la,
            forall|j: int| 0 <= j < i ==> a@[j] == b@[j],
        decreases la - i,
    {
        let ca = a.get_char(i);
        let cb = b.get_char(i);
        if ca != cb {
            assert(differ_first_at(a@, b@, i as int));
            let r = (ca as u32) < (cb as u32);
            proof {
                if !r && precedes(a@, b@) {
                    let k = choose|k: int| differ_first_at(a@, b@, k) &&
                        (a@[k] as int) < (b@[k] as int);
                    if k < i {
                        assert(a@[k] == b@[k]);
                    } else if i < k {
                        assert(a@[i as int] == b@[i as int]);
                    }
                }
            }
            return r;
        }
        i += 1;
    }
    proof {
        if precedes(a@, b@) {
            let k = choose|k: int| differ_first_at(a@, b@, k) && (a@[k] as int) < (b@[k] as int);
            assert(a@[k] == b@[k]);
        }
    }
    false
}

} // verus!
