//! String helpers shared by the discovery and rendering code:
//! a lexicographic order on strings, decimal and hexadecimal
//! rendering of numbers, and JSON string escaping.

use vstd::prelude::*;

verus! {

use vstd::std_specs::iter::IteratorSpec;

/// Relies on String::push from std: appends the given char to the
/// end of the string.
#[verifier::external_body]
pub fn push_char(s: &mut String, c: char)
    ensures
        final(s)@ == old(s)@.push(c),
{
    s.push(c);
}

/// The characters of a string, as a vector.
pub fn chars_of(s: &str) -> (v: Vec<char>)
    ensures
        v@ == s@,
{
    broadcast use vstd::string::axiom_spec_iter, vstd::string::next_postcondition;

    let mut it = s.chars();
    let mut v: Vec<char> = Vec::new();
    loop
        invariant
            it.obeys_prophetic_iter_laws(),
            v@ + vstd::std_specs::iter::IteratorSpec::remaining(&it) == s@,
        decreases s@.len() - v@.len(),
    {
        match it.next() {
            Some(c) => {
                v.push(c);
            },
            None => {
                return v;
            },
        }
    }
}

/// Strict lexicographic order on character sequences, by scalar value.
pub open spec fn lex_lt(a: Seq<char>, b: Seq<char>) -> bool
    decreases a.len(),
{
    if b.len() == 0 {
        false
    } else if a.len() == 0 {
        true
    } else if a[0] != b[0] {
        a[0] < b[0]
    } else {
        lex_lt(a.drop_first(), b.drop_first())
    }
}

pub proof fn lemma_lex_lt_irreflexive(a: Seq<char>)
    ensures
        !lex_lt(a, a),
    decreases a.len(),
{
    if a.len() > 0 {
        lemma_lex_lt_irreflexive(a.drop_first());
    }
}

pub proof fn lemma_lex_lt_transitive(a: Seq<char>, b: Seq<char>, c: Seq<char>)
    requires
        lex_lt(a, b),
        lex_lt(b, c),
    ensures
        lex_lt(a, c),
    decreases a.len(),
{
    if a.len() > 0 && b.len() > 0 && c.len() > 0 {
        if a[0] == b[0] && b[0] == c[0] {
            lemma_lex_lt_transitive(a.drop_first(), b.drop_first(), c.drop_first());
        }
    }
}

pub proof fn lemma_lex_lt_neq(a: Seq<char>, b: Seq<char>)
    requires
        lex_lt(a, b),
    ensures
        a != b,
{
    lemma_lex_lt_irreflexive(a);
}

/// Compares two strings in the order `lex_lt`.  The result also
/// settles trichotomy: when `a` is not below `b`, either the two are
/// equal or `b` is below `a`.
pub fn str_lt(a: &str, b: &str) -> (r: bool)
    ensures
        r == lex_lt(a@, b@),
        !r ==> a@ == b@ || lex_lt(b@, a@),
{
    let va = chars_of(a);
    let vb = chars_of(b);
    let mut i: usize = 0;
    proof {
        assert(a@.skip(0) =~= a@);
        assert(b@.skip(0) =~= b@);
    }
    loop
        invariant
            i <= va@.len(),
            i <= vb@.len(),
            va@ == a@,
            vb@ == b@,
            lex_lt(a@, b@) == lex_lt(a@.skip(i as int), b@.skip(i as int)),
            lex_lt(b@, a@) == lex_lt(b@.skip(i as int), a@.skip(i as int)),
            forall|k: int| 0 <= k < i ==> a@[k] == b@[k],
        decreases va@.len() - i,
    {
        if i == vb.len() {
            if i == va.len() {
                proof {
                    assert(a@ =~= b@);
                }
            }
            return false;
        }
        if i == va.len() {
            return true;
        }
        let ca = va[i];
        let cb = vb[i];
        proof {
            assert(a@.skip(i as int)[0] == a@[i as int]);
            assert(b@.skip(i as int)[0] == b@[i as int]);
            assert(a@.skip(i as int).drop_first() =~= a@.skip(i as int + 1));
            assert(b@.skip(i as int).drop_first() =~= b@.skip(i as int + 1));
        }
        if ca != cb {
            return ca < cb;
        }
        i = i + 1;
    }
}

/// Compares two strings for equality of their characters.
pub fn str_eq(a: &str, b: &str) -> (r: bool)
    ensures
        r == (a@ == b@),
{
    let va = chars_of(a);
    let vb = chars_of(b);
    if va.len() != vb.len() {
        proof {
            assert(a@.len() != b@.len());
        }
        return false;
    }
    let mut i: usize = 0;
    loop
        invariant
            i <= va@.len(),
            va@.len() == vb@.len(),
            va@ == a@,
            vb@ == b@,
            forall|k: int| 0 <= k < i ==> a@[k] == b@[k],
        decreases va@.len() - i,
    {
        if i == va.len() {
            proof {
                assert(a@ =~= b@);
            }
            return true;
        }
        if va[i] != vb[i] {
            return false;
        }
        i = i + 1;
    }
}

/// The decimal digit `d` as a character; `d` must be below ten.
pub open spec fn digit_char(d: int) -> char {
    if d == 0 {
        '0'
    } else if d == 1 {
        '1'
    } else if d == 2 {
        '2'
    } else if d == 3 {
        '3'
    } else if d == 4 {
        '4'
    } else if d == 5 {
        '5'
    } else if d == 6 {
        '6'
    } else if d == 7 {
        '7'
    } else if d == 8 {
        '8'
    } else {
        '9'
    }
}

/// The decimal rendering of a natural number, most significant digit
/// first, with no leading zeros (zero itself renders as "0").
pub open spec fn dec_str(n: nat) -> Seq<char>
    decreases n,
{
    if n < 10 {
        seq![digit_char(n as int)]
    } else {
        dec_str(n / 10).push(digit_char((n % 10) as int))
    }
}

fn digit_of(d: usize) -> (c: char)
    requires
        d < 10,
    ensures
        c == digit_char(d as int),
{
    match d {
        0 => '0',
        1 => '1',
        2 => '2',
        3 => '3',
        4 => '4',
        5 => '5',
        6 => '6',
        7 => '7',
        8 => '8',
        _ => '9',
    }
}

/// Renders a number in decimal.
pub fn dec_of(n: usize) -> (s: String)
    ensures
        s@ == dec_str(n as nat),
{
    let mut digits: Vec<char> = Vec::new();
    let mut m: usize = n;
    proof {
        assert(dec_str(n as nat) =~= dec_str(n as nat) + digits@.reverse());
    }
    while m >= 10
        invariant
            dec_str(n as nat) =~= dec_str(m as nat) + digits@.reverse(),
        decreases m,
    {
        let ghost old_digits = digits@;
        let ghost old_m = m as nat;
        let d = m % 10;
        digits.push(digit_of(d));
        m = m / 10;
        proof {
            assert(dec_str(old_m) == dec_str(old_m / 10).push(digit_char((old_m % 10) as int)));
            assert(m as nat == old_m / 10);
            assert(digits@.reverse() =~= seq![digit_char(d as int)] + old_digits.reverse());
            assert(dec_str(m as nat).push(digit_char(d as int)) + old_digits.reverse()
                =~= dec_str(m as nat) + (seq![digit_char(d as int)] + old_digits.reverse()));
            assert(dec_str(n as nat) =~= dec_str(m as nat) + digits@.reverse());
        }
    }
    let ghost before_last = digits@;
    digits.push(digit_of(m));
    proof {
        assert(dec_str(m as nat) =~= seq![digit_char(m as int)]);
        assert(digits@.reverse() =~= seq![digit_char(m as int)] + before_last.reverse());
        assert(dec_str(n as nat) =~= digits@.reverse());
    }
    let mut s = String::new();
    let mut i: usize = digits.len();
    proof {
        assert(digits@.reverse().skip(0) =~= digits@.reverse());
    }
    loop
        invariant
            i <= digits@.len(),
            s@ + digits@.reverse().skip(digits@.len() - i) =~= dec_str(n as nat),
        decreases i,
    {
        if i == 0 {
            proof {
                assert(digits@.reverse().skip(digits@.len() as int) =~= Seq::<char>::empty());
                assert(s@ =~= dec_str(n as nat));
            }
            return s;
        }
        i = i - 1;
        let c = digits[i];
        proof {
            let k = digits@.len() - 1 - i;
            assert(digits@.reverse()[k] == digits@[i as int]);
            assert(digits@.reverse().skip(k) =~= seq![digits@.reverse()[k]] + digits@.reverse().skip(
                k + 1,
            ));
        }
        push_char(&mut s, c);
    }
}

} // verus!

verus! {

/// The hexadecimal digit `d` as a lower-case character; `d` must be
/// below sixteen.
pub open spec fn hex_digit(d: int) -> char {
    if d == 0 {
        '0'
    } else if d == 1 {
        '1'
    } else if d == 2 {
        '2'
    } else if d == 3 {
        '3'
    } else if d == 4 {
        '4'
    } else if d == 5 {
        '5'
    } else if d == 6 {
        '6'
    } else if d == 7 {
        '7'
    } else if d == 8 {
        '8'
    } else if d == 9 {
        '9'
    } else if d == 10 {
        'a'
    } else if d == 11 {
        'b'
    } else if d == 12 {
        'c'
    } else if d == 13 {
        'd'
    } else if d == 14 {
        'e'
    } else {
        'f'
    }
}

/// Lower-case hexadecimal rendering of a byte sequence, two digits
/// per byte.
pub open spec fn hex_str(bytes: Seq<u8>) -> Seq<char>
    decreases bytes.len(),
{
    if bytes.len() == 0 {
        Seq::empty()
    } else {
        hex_str(bytes.drop_last()) + seq![
            hex_digit(bytes.last() as int / 16),
            hex_digit(bytes.last() as int % 16),
        ]
    }
}

fn hex_digit_of(d: u8) -> (c: char)
    requires
        d < 16,
    ensures
        c == hex_digit(d as int),
{
    match d {
        0 => '0',
        1 => '1',
        2 => '2',
        3 => '3',
        4 => '4',
        5 => '5',
        6 => '6',
        7 => '7',
        8 => '8',
        9 => '9',
        10 => 'a',
        11 => 'b',
        12 => 'c',
        13 => 'd',
        14 => 'e',
        _ => 'f',
    }
}

/// Renders a byte sequence as lower-case hexadecimal.
pub fn hex_of(bytes: &Vec<u8>) -> (s: String)
    ensures
        s@ == hex_str(bytes@),
{
    let mut s = String::new();
    let mut i: usize = 0;
    proof {
        assert(bytes@.take(0) =~= Seq::<u8>::empty());
    }
    loop
        invariant
            i <= bytes@.len(),
            s@ =~= hex_str(bytes@.take(i as int)),
        decreases bytes@.len() - i,
    {
        if i == bytes.len() {
            proof {
                assert(bytes@.take(bytes@.len() as int) =~= bytes@);
            }
            return s;
        }
        let b = bytes[i];
        push_char(&mut s, hex_digit_of(b / 16));
        push_char(&mut s, hex_digit_of(b % 16));
        i = i + 1;
        proof {
            assert(bytes@.take(i as int).drop_last() =~= bytes@.take(i as int - 1));
            assert(bytes@.take(i as int).last() == bytes@[i as int - 1]);
        }
    }
}

/// How one character is written inside a JSON string literal.
pub open spec fn esc_char(c: char) -> Seq<char> {
    if c == '"' {
        seq!['\\', '"']
    } else if c == '\\' {
        seq!['\\', '\\']
    } else if ' ' > c {
        seq!['\\', 'u', '0', '0', hex_digit(c as u32 as int / 16 % 16), hex_digit(c as u32 as int % 16)]
    } else {
        seq![c]
    }
}

/// A character sequence written inside a JSON string literal:
/// quotes and backslashes escaped, control characters in `\u00..`
/// form, everything else as itself.
pub open spec fn json_escaped(s: Seq<char>) -> Seq<char>
    decreases s.len(),
{
    if s.len() == 0 {
        Seq::empty()
    } else {
        json_escaped(s.drop_last()) + esc_char(s.last())
    }
}

/// Escapes a string for inclusion in a JSON string literal.
pub fn json_escape(s: &str) -> (r: String)
    ensures
        r@ == json_escaped(s@),
{
    let cs = chars_of(s);
    let mut r = String::new();
    let mut i: usize = 0;
    proof {
        assert(s@.take(0) =~= Seq::<char>::empty());
    }
    loop
        invariant
            i <= cs@.len(),
            cs@ == s@,
            r@ =~= json_escaped(s@.take(i as int)),
        decreases cs@.len() - i,
    {
        if i == cs.len() {
            proof {
                assert(s@.take(s@.len() as int) =~= s@);
            }
            return r;
        }
        let c = cs[i];
        if c == '"' {
            push_char(&mut r, '\\');
            push_char(&mut r, '"');
        } else if c == '\\' {
            push_char(&mut r, '\\');
            push_char(&mut r, '\\');
        } else if ' ' > c {
            let code = c as u32;
            push_char(&mut r, '\\');
            push_char(&mut r, 'u');
            push_char(&mut r, '0');
            push_char(&mut r, '0');
            push_char(&mut r, hex_digit_of((code / 16 % 16) as u8));
            push_char(&mut r, hex_digit_of((code % 16) as u8));
        } else {
            push_char(&mut r, c);
        }
        i = i + 1;
        proof {
            assert(s@.take(i as int).drop_last() =~= s@.take(i as int - 1));
            assert(s@.take(i as int).last() == s@[i as int - 1]);
        }
    }
}

/// The views of a sequence of strings.
pub open spec fn views_of(s: Seq<String>) -> Seq<Seq<char>> {
    s.map_values(|x: String| x@)
}

/// Each element strictly below its successor in the order `lex_lt`.
pub open spec fn strictly_sorted(s: Seq<Seq<char>>) -> bool {
    forall|i: int| 0 <= i && i + 1 < s.len() ==> lex_lt(#[trigger] s[i], s[i + 1])
}

pub proof fn lemma_sorted_lt(s: Seq<Seq<char>>, i: int, j: int)
    requires
        strictly_sorted(s),
        0 <= i < j < s.len(),
    ensures
        lex_lt(s[i], s[j]),
    decreases j - i,
{
    if j == i + 1 {
    } else {
        lemma_sorted_lt(s, i, j - 1);
        lemma_lex_lt_transitive(s[i], s[j - 1], s[j]);
    }
}

/// In a strictly sorted sequence no element occurs twice.
pub proof fn lemma_sorted_distinct(s: Seq<Seq<char>>)
    requires
        strictly_sorted(s),
    ensures
        forall|i: int, j: int| 0 <= i < j < s.len() ==> #[trigger] s[i] != #[trigger] s[j],
{
    assert forall|i: int, j: int| 0 <= i < j < s.len() implies #[trigger] s[i] != #[trigger] s[j] by {
        lemma_sorted_lt(s, i, j);
        lemma_lex_lt_neq(s[i], s[j]);
    }
}

/// Inserts a string into a sorted vector, keeping it sorted and
/// ignoring a string already present.
pub fn insert_sorted(v: &mut Vec<String>, s: String)
    requires
        strictly_sorted(views_of(old(v)@)),
    ensures
        strictly_sorted(views_of(final(v)@)),
        views_of(final(v)@).to_set() =~= views_of(old(v)@).to_set().insert(s@),
{
    let mut i: usize = 0;
    loop
        invariant
            i <= v@.len(),
            v@ == old(v)@,
            strictly_sorted(views_of(v@)),
            forall|k: int| 0 <= k < i ==> lex_lt(#[trigger] views_of(v@)[k], s@),
        decreases v@.len() - i,
    {
        if i == v.len() {
            v.push(s);
            proof {
                broadcast use vstd::prelude::Seq::lemma_push_to_set_commute;

                assert(views_of(v@) =~= views_of(old(v)@).push(s@));
            }
            return ;
        }
        let below = str_lt(v[i].as_str(), s.as_str());
        if below {
            i = i + 1;
        } else {
            if str_eq(v[i].as_str(), s.as_str()) {
                proof {
                    broadcast use vstd::set::group_set_axioms;

                    assert(views_of(v@)[i as int] == s@);
                    assert(views_of(v@).contains(s@));
                    assert(views_of(v@).to_set() =~= views_of(old(v)@).to_set().insert(s@));
                }
                return ;
            }
            v.insert(i, s);
            proof {
                assert(views_of(v@) =~= views_of(old(v)@).insert(i as int, s@));
                assert forall|k: int| 0 <= k && k + 1 < views_of(v@).len() implies lex_lt(
                    views_of(v@)[k],
                    #[trigger] views_of(v@)[k + 1],
                ) by {
                    let w = views_of(old(v)@);
                    let u = views_of(v@);
                    assert(forall|t: int| 0 <= t < i ==> u[t] == w[t]);
                    assert(u[i as int] == s@);
                    assert(forall|t: int| i < t < u.len() ==> u[t] == w[t - 1]);
                }
                let w = views_of(old(v)@);
                let u = views_of(v@);
                broadcast use vstd::set::group_set_axioms;

                assert forall|x: Seq<char>| u.contains(x) implies w.contains(x) || x == s@ by {
                    let k = choose|k: int| 0 <= k < u.len() && u[k] == x;
                    if k < i as int {
                        assert(w[k] == x);
                    } else if k > i as int {
                        assert(w[k - 1] == x);
                    }
                };
                assert forall|x: Seq<char>| w.contains(x) implies u.contains(x) by {
                    let k = choose|k: int| 0 <= k < w.len() && w[k] == x;
                    if k < i as int {
                        assert(u[k] == x);
                    } else {
                        assert(u[k + 1] == x);
                    }
                };
                assert(u.contains(s@)) by {
                    assert(u[i as int] == s@);
                };
                assert(views_of(v@).to_set() =~= views_of(old(v)@).to_set().insert(s@));
            }
            return ;
        }
    }
}

} // verus!
