use vstd::prelude::*;

verus! {

/// `0`
pub const DIGIT_ZERO: u8 = 48;
/// `9`
pub const DIGIT_NINE: u8 = 57;
/// `_`
pub const UNDERSCORE: u8 = 95;
/// `$`
pub const DOLLAR: u8 = 36;
/// `.`
pub const DOT: u8 = 46;
/// `Z`, the second byte of every mangled name.
pub const PREFIX_Z: u8 = 90;
/// `N`, which opens a nested name.
pub const NESTED_MARK: u8 = 78;
/// `E`, which closes a nested name.
pub const END_MARK: u8 = 69;
/// `v`, the code of `void`.
pub const VOID_CODE: u8 = 118;
/// `:`
pub const COLON: u8 = 58;
/// `(`
pub const OPEN_PAREN: u8 = 40;
/// `)`
pub const CLOSE_PAREN: u8 = 41;
/// `,`
pub const COMMA: u8 = 44;
/// ` `
pub const SPACE: u8 = 32;

/// An ASCII decimal digit.
pub open spec fn is_digit(b: u8) -> bool {
    DIGIT_ZERO <= b <= DIGIT_NINE
}

/// A byte that may stand in a mangled symbol: letters, digits, `_`, `$`, `.`.
pub open spec fn is_symbol_byte(b: u8) -> bool {
    is_digit(b) || (65u8 <= b <= 90u8) /* A-Z */ || (97u8 <= b <= 122u8) /* a-z */ || b == UNDERSCORE || b == DOLLAR || b == DOT
}

/// The end of the run of digits that starts at `i`.
pub open spec fn digits_end(s: Seq<u8>, i: int) -> int
    decreases s.len() - i,
{
    if 0 <= i < s.len() && is_digit(s[i]) {
        digits_end(s, i + 1)
    } else {
        i
    }
}

/// The value of a string of decimal digits.
pub open spec fn number(d: Seq<u8>) -> nat
    decreases d.len(),
{
    if d.len() == 0 {
        0
    } else {
        number(d.drop_last()) * 10 + (d.last() - DIGIT_ZERO) as nat
    }
}

/// A length-prefixed name at `i` (a decimal length without leading zero,
/// then that many bytes): the name and the position after it.
pub open spec fn name_at(s: Seq<u8>, i: int) -> Option<(Seq<u8>, int)> {
    let j = digits_end(s, i);
    let n = number(s.subrange(i, j));
    if 0 <= i && j > i && s[i] != DIGIT_ZERO && j + n <= s.len() {
        Some((s.subrange(j, j + n), j + n))
    } else {
        None
    }
}

/// The Rust escape that `n` starts with, if any: what it stands for and
/// how many bytes it takes (`$LT$` `<`, `$GT$` `>`, `$RF$` `&`, `$BP$` `*`,
/// `$C$` `,`, `$u20$` a space, `..` `::`).
pub open spec fn escape_at(n: Seq<u8>) -> Option<(Seq<u8>, int)> {
    if n.len() >= 4 && n[0] == DOLLAR && n[3] == DOLLAR && n[1] == 76u8 && n[2] == 84u8 {
        Some((seq![60u8], 4))
    } else if n.len() >= 4 && n[0] == DOLLAR && n[3] == DOLLAR && n[1] == 71u8 && n[2] == 84u8 {
        Some((seq![62u8], 4))
    } else if n.len() >= 4 && n[0] == DOLLAR && n[3] == DOLLAR && n[1] == 82u8 && n[2] == 70u8 {
        Some((seq![38u8], 4))
    } else if n.len() >= 4 && n[0] == DOLLAR && n[3] == DOLLAR && n[1] == 66u8 && n[2] == 80u8 {
        Some((seq![42u8], 4))
    } else if n.len() >= 3 && n[0] == DOLLAR && n[1] == 67u8 && n[2] == DOLLAR {
        Some((seq![COMMA], 3))
    } else if n.len() >= 5 && n[0] == DOLLAR && n[1] == 117u8 && n[2] == 50u8 && n[3] == 48u8
        && n[4] == DOLLAR {
        Some((seq![SPACE], 5))
    } else if n.len() >= 2 && n[0] == DOT && n[1] == DOT {
        Some((seq![COLON, COLON], 2))
    } else {
        None
    }
}

/// A name with its Rust escapes decoded.
pub open spec fn unescape(n: Seq<u8>) -> Seq<u8>
    decreases n.len(),
{
    if n.len() == 0 {
        Seq::empty()
    } else {
        match escape_at(n) {
            Some((e, k)) => if 0 < k <= n.len() {
                e + unescape(n.subrange(k, n.len() as int))
            } else {
                Seq::empty()
            },
            None => seq![n[0]] + unescape(n.drop_first()),
        }
    }
}

/// The names of a nested name from `i` up to its closing `E`, and the
/// position after the `E`.
pub open spec fn names_at(s: Seq<u8>, i: int) -> Option<(Seq<Seq<u8>>, int)>
    decreases s.len() - i,
{
    if i < 0 || i >= s.len() {
        None
    } else if s[i] == END_MARK {
        Some((Seq::empty(), i + 1))
    } else {
        match name_at(s, i) {
            None => None,
            Some((n, k)) => if k <= i || k > s.len() {
                None
            } else {
                match names_at(s, k) {
                    None => None,
                    Some((rest, e)) => Some((seq![unescape(n)] + rest, e)),
                }
            },
        }
    }
}

/// The display name of a builtin parameter type code.
pub open spec fn builtin_type(c: u8) -> Option<Seq<u8>> {
    if c == 118u8 {
        // `v`: void
        Some(seq![118u8, 111u8, 105u8, 100u8])
    } else if c == 98u8 {
        // `b`: bool
        Some(seq![98u8, 111u8, 111u8, 108u8])
    } else if c == 99u8 {
        // `c`: char
        Some(seq![99u8, 104u8, 97u8, 114u8])
    } else if c == 104u8 {
        // `h`: unsigned char
        Some(seq![117u8, 110u8, 115u8, 105u8, 103u8, 110u8, 101u8, 100u8, 32u8, 99u8, 104u8, 97u8, 114u8])
    } else if c == 115u8 {
        // `s`: short
        Some(seq![115u8, 104u8, 111u8, 114u8, 116u8])
    } else if c == 116u8 {
        // `t`: unsigned short
        Some(seq![117u8, 110u8, 115u8, 105u8, 103u8, 110u8, 101u8, 100u8, 32u8, 115u8, 104u8, 111u8, 114u8, 116u8])
    } else if c == 105u8 {
        // `i`: int
        Some(seq![105u8, 110u8, 116u8])
    } else if c == 106u8 {
        // `j`: unsigned int
        Some(seq![117u8, 110u8, 115u8, 105u8, 103u8, 110u8, 101u8, 100u8, 32u8, 105u8, 110u8, 116u8])
    } else if c == 108u8 {
        // `l`: long
        Some(seq![108u8, 111u8, 110u8, 103u8])
    } else if c == 109u8 {
        // `m`: unsigned long
        Some(seq![117u8, 110u8, 115u8, 105u8, 103u8, 110u8, 101u8, 100u8, 32u8, 108u8, 111u8, 110u8, 103u8])
    } else {
        None
    }
}

/// The parameter types coded from `i` to the end.
pub open spec fn types_at(s: Seq<u8>, i: int) -> Option<Seq<Seq<u8>>>
    decreases s.len() - i,
{
    if i < 0 {
        None
    } else if i >= s.len() {
        Some(Seq::empty())
    } else {
        match builtin_type(s[i]) {
            None => None,
            Some(t) => match types_at(s, i + 1) {
                None => None,
                Some(rest) => Some(seq![t] + rest),
            },
        }
    }
}

/// The parts put one after another with `sep` between each two.
pub open spec fn join(parts: Seq<Seq<u8>>, sep: Seq<u8>) -> Seq<u8>
    decreases parts.len(),
{
    if parts.len() == 0 {
        Seq::empty()
    } else if parts.len() == 1 {
        parts[0]
    } else {
        join(parts.drop_last(), sep) + sep + parts.last()
    }
}

/// `::`
pub open spec fn path_sep() -> Seq<u8> {
    seq![COLON, COLON]
}

/// `, `
pub open spec fn list_sep() -> Seq<u8> {
    seq![COMMA, SPACE]
}

/// The parameter list coded from `e` to the end: `()` for a lone `v`,
/// else the type names in parentheses.
pub open spec fn arg_list(s: Seq<u8>, e: int, types: Seq<Seq<u8>>) -> Seq<u8> {
    if e == s.len() - 1 && s[e] == VOID_CODE {
        seq![OPEN_PAREN, CLOSE_PAREN]
    } else {
        seq![OPEN_PAREN] + join(types, list_sep()) + seq![CLOSE_PAREN]
    }
}

/// The display form of a nested name `_ZN <name> <name>... E` (at least
/// two names) with optional parameter codes after it.
pub open spec fn parse_nested(s: Seq<u8>) -> Option<Seq<u8>> {
    match names_at(s, 3) {
        None => None,
        Some((names, e)) => if names.len() < 2 {
            None
        } else if e >= s.len() {
            Some(join(names, path_sep()))
        } else {
            match types_at(s, e) {
                None => None,
                Some(ts) => Some(join(names, path_sep()) + arg_list(s, e, ts)),
            }
        },
    }
}

/// The display form of `_Z <name>` followed by parameter codes.
pub open spec fn parse_plain(s: Seq<u8>) -> Option<Seq<u8>> {
    match name_at(s, 2) {
        None => None,
        Some((n, k)) => if k >= s.len() {
            None
        } else {
            match types_at(s, k) {
                None => None,
                Some(ts) => Some(unescape(n) + arg_list(s, k, ts)),
            }
        },
    }
}

/// The display form of a mangled name, where the grammar accepts it: only
/// symbol bytes, `_Z`, then a nested name (`N`) or a plain one.
pub open spec fn parse(s: Seq<u8>) -> Option<Seq<u8>> {
    if !(s.len() >= 3 && s[0] == UNDERSCORE && s[1] == PREFIX_Z && forall|k: int|
        0 <= k < s.len() ==> is_symbol_byte(#[trigger] s[k])) {
        None
    } else if s[2] == NESTED_MARK {
        parse_nested(s)
    } else {
        parse_plain(s)
    }
}

/// What `demangle` returns: the display form where the grammar accepts the
/// input, the input itself otherwise.
pub open spec fn demangled(s: Seq<u8>) -> Seq<u8> {
    match parse(s) {
        Some(d) => d,
        None => s,
    }
}

} // verus!


verus! {

proof fn lemma_digits_end(s: Seq<u8>, i: int)
    requires
        0 <= i <= s.len(),
    ensures
        i <= digits_end(s, i) <= s.len(),
        forall|k: int| i <= k < digits_end(s, i) ==> is_digit(#[trigger] s[k]),
    decreases s.len() - i,
{
    if i < s.len() && is_digit(s[i]) {
        lemma_digits_end(s, i + 1);
    }
}

proof fn lemma_number_prefix(d: Seq<u8>, k: int)
    requires
        0 <= k <= d.len(),
    ensures
        number(d.subrange(0, k)) <= number(d),
    decreases d.len(),
{
    if k < d.len() {
        assert(d.drop_last().subrange(0, k) =~= d.subrange(0, k));
        lemma_number_prefix(d.drop_last(), k);
    } else {
        assert(d.subrange(0, k) =~= d);
    }
}

/// Appends `s[a..b]` to `out`.
fn push_range(out: &mut Vec<u8>, s: &[u8], a: usize, b: usize)
    requires
        a <= b <= s.len(),
    ensures
        final(out)@ == old(out)@ + s@.subrange(a as int, b as int),
{
    let mut k: usize = a;
    while k < b
        invariant
            a <= k <= b <= s.len(),
            out@ == old(out)@ + s@.subrange(a as int, k as int),
        decreases b - k,
    {
        out.push(s[k]);
        k = k + 1;
        assert(out@ =~= old(out)@ + s@.subrange(a as int, k as int));
    }
}

/// Whether every byte may stand in a mangled symbol.
fn all_symbol_bytes(s: &[u8]) -> (r: bool)
    ensures
        r == forall|k: int| 0 <= k < s.len() ==> is_symbol_byte(#[trigger] s@[k]),
{
    let mut k: usize = 0;
    while k < s.len()
        invariant
            k <= s.len(),
            forall|m: int| 0 <= m < k ==> is_symbol_byte(#[trigger] s@[m]),
        decreases s.len() - k,
    {
        let b = s[k];
        let ok = (DIGIT_ZERO <= b && b <= DIGIT_NINE) || (65 <= b && b <= 90) /* A-Z */ || (97 <= b && b <= 122) /* a-z */ || b == UNDERSCORE
            || b == DOLLAR || b == DOT;
        if !ok {
            return false;
        }
        k = k + 1;
    }
    true
}

/// Finds the length-prefixed name at `i`: where its bytes start, and where
/// it ends.
fn find_name(s: &[u8], i: usize) -> (r: Option<(usize, usize)>)
    requires
        i <= s.len(),
    ensures
        r.is_some() == name_at(s@, i as int).is_some(),
        r.is_some() ==> ({
            let (a, b) = r.unwrap();
            &&& i < a <= b <= s.len()
            &&& name_at(s@, i as int) == Some((s@.subrange(a as int, b as int), b as int))
        }),
{
    proof {
        lemma_digits_end(s@, i as int);
    }
    let mut j: usize = i;
    while j < s.len() && DIGIT_ZERO <= s[j] && s[j] <= DIGIT_NINE
        invariant
            i <= j <= s.len(),
            digits_end(s@, i as int) == digits_end(s@, j as int),
        decreases s.len() - j,
    {
        j = j + 1;
    }
    assert(digits_end(s@, j as int) == j);
    if j == i || s[i] == DIGIT_ZERO {
        return None;
    }
    let ghost d = s@.subrange(i as int, j as int);
    let mut v: u128 = 0;
    let mut k: usize = i;
    while k < j
        invariant
            i <= k <= j <= s.len(),
            d == s@.subrange(i as int, j as int),
            j == digits_end(s@, i as int),
            forall|m: int| i <= m < j ==> is_digit(#[trigger] s@[m]),
            v == number(s@.subrange(i as int, k as int)),
            v <= s.len(),
        decreases j - k,
    {
        assert(s@.subrange(i as int, k + 1).drop_last() =~= s@.subrange(i as int, k as int));
        assert(is_digit(s@[k as int]));
        v = v * 10 + (s[k] - DIGIT_ZERO) as u128;
        k = k + 1;
        if v > s.len() as u128 {
            proof {
                assert(d.subrange(0, k - i) =~= s@.subrange(i as int, k as int));
                lemma_number_prefix(d, k - i);
            }
            return None;
        }
    }
    assert(d =~= s@.subrange(i as int, k as int));
    if (j as u128) + v > s.len() as u128 {
        return None;
    }
    let b: usize = j + v as usize;
    Some((j, b))
}

/// Appends the display name of a builtin type code; `false` where the code
/// is not one.
fn push_builtin_type(out: &mut Vec<u8>, c: u8) -> (ok: bool)
    ensures
        ok == builtin_type(c).is_some(),
        ok ==> final(out)@ == old(out)@ + builtin_type(c).unwrap(),
{
    let name: Vec<u8> = if c == 118 {
        vec![118u8, 111u8, 105u8, 100u8]
    } else if c == 98 {
        vec![98u8, 111u8, 111u8, 108u8]
    } else if c == 99 {
        vec![99u8, 104u8, 97u8, 114u8]
    } else if c == 104 {
        vec![117u8, 110u8, 115u8, 105u8, 103u8, 110u8, 101u8, 100u8, 32u8, 99u8, 104u8, 97u8, 114u8]
    } else if c == 115 {
        vec![115u8, 104u8, 111u8, 114u8, 116u8]
    } else if c == 116 {
        vec![117u8, 110u8, 115u8, 105u8, 103u8, 110u8, 101u8, 100u8, 32u8, 115u8, 104u8, 111u8, 114u8, 116u8]
    } else if c == 105 {
        vec![105u8, 110u8, 116u8]
    } else if c == 106 {
        vec![117u8, 110u8, 115u8, 105u8, 103u8, 110u8, 101u8, 100u8, 32u8, 105u8, 110u8, 116u8]
    } else if c == 108 {
        vec![108u8, 111u8, 110u8, 103u8]
    } else if c == 109 {
        vec![117u8, 110u8, 115u8, 105u8, 103u8, 110u8, 101u8, 100u8, 32u8, 108u8, 111u8, 110u8, 103u8]
    } else {
        return false;
    };
    assert(name@ =~= builtin_type(c).unwrap());
    push_range(out, name.as_slice(), 0, name.len());
    assert(name@.subrange(0, name@.len() as int) =~= name@);
    true
}

/// Appends the parameter list coded from `e` to the end; `false` where a
/// code is not a builtin type.
fn push_args(s: &[u8], e: usize, out: &mut Vec<u8>) -> (ok: bool)
    requires
        e < s.len(),
    ensures
        ok == types_at(s@, e as int).is_some(),
        ok ==> final(out)@ == old(out)@ + arg_list(s@, e as int, types_at(s@, e as int).unwrap()),
{
    if e == s.len() - 1 && s[e] == VOID_CODE {
        assert(types_at(s@, e + 1) == Some(Seq::<Seq<u8>>::empty()));
        assert(types_at(s@, e as int).is_some());
        out.push(OPEN_PAREN);
        out.push(CLOSE_PAREN);
        assert(out@ =~= old(out)@ + seq![OPEN_PAREN, CLOSE_PAREN]);
        return true;
    }
    out.push(OPEN_PAREN);
    let ghost acc: Seq<Seq<u8>> = Seq::empty();
    let mut k: usize = e;
    while k < s.len()
        invariant
            e <= k <= s.len(),
            out@ == old(out)@ + seq![OPEN_PAREN] + join(acc, list_sep()),
            acc.len() == k - e,
            match types_at(s@, k as int) {
                None => types_at(s@, e as int).is_none(),
                Some(rest) => types_at(s@, e as int) == Some(acc + rest),
            },
        decreases s.len() - k,
    {
        let ghost before = out@;
        if k > e {
            out.push(COMMA);
            out.push(SPACE);
        }
        let c = s[k];
        if !push_builtin_type(out, c) {
            return false;
        }
        let ghost t = builtin_type(c).unwrap();
        proof {
            let acc2 = acc.push(t);
            assert(acc2.drop_last() =~= acc);
            assert(acc2.last() == t);
            if acc.len() == 0 {
                assert(join(acc2, list_sep()) == t);
                assert(out@ =~= old(out)@ + seq![OPEN_PAREN] + join(acc2, list_sep()));
            } else {
                assert(out@ =~= old(out)@ + seq![OPEN_PAREN] + join(acc2, list_sep()));
            }
            match types_at(s@, k + 1) {
                None => {},
                Some(rest) => {
                    assert(acc + (seq![t] + rest) =~= acc2 + rest);
                },
            }
            acc = acc2;
        }
        k = k + 1;
    }
    assert(acc + Seq::<Seq<u8>>::empty() =~= acc);
    out.push(CLOSE_PAREN);
    assert(out@ =~= old(out)@ + arg_list(s@, e as int, acc));
    true
}

/// Appends the decoding of the Rust escape at `s[k..b]`, if one starts
/// there, and returns how many bytes it takes; 0 where none starts there.
fn push_escape(out: &mut Vec<u8>, s: &[u8], k: usize, b: usize) -> (used: usize)
    requires
        k < b <= s.len(),
    ensures
        used == 0 ==> escape_at(s@.subrange(k as int, b as int)) is None && final(out)@ == old(out)@,
        used > 0 ==> ({
            let (e, m) = escape_at(s@.subrange(k as int, b as int)).unwrap();
            &&& escape_at(s@.subrange(k as int, b as int)) is Some
            &&& m == used
            &&& final(out)@ == old(out)@ + e
        }),
{
    let ghost n = s@.subrange(k as int, b as int);
    let m: usize = b - k;
    assert(n[0] == s@[k as int]);
    if m >= 2 {
        assert(n[1] == s@[k + 1]);
    }
    if m >= 3 {
        assert(n[2] == s@[k + 2]);
    }
    if m >= 4 {
        assert(n[3] == s@[k + 3]);
    }
    if m >= 5 {
        assert(n[4] == s@[k + 4]);
    }
    if m >= 4 && s[k] == DOLLAR && s[k + 3] == DOLLAR {
        let (x, y) = (s[k + 1], s[k + 2]);
        let c: u8 = if x == 76 && y == 84 {
            60
        } else if x == 71 && y == 84 {
            62
        } else if x == 82 && y == 70 {
            38
        } else if x == 66 && y == 80 {
            42
        } else {
            0
        };
        if c != 0 {
            out.push(c);
            assert(out@ =~= old(out)@ + seq![c]);
            return 4;
        }
    }
    if m >= 3 && s[k] == DOLLAR && s[k + 1] == 67 && s[k + 2] == DOLLAR {
        out.push(COMMA);
        assert(out@ =~= old(out)@ + seq![COMMA]);
        return 3;
    }
    if m >= 5 && s[k] == DOLLAR && s[k + 1] == 117 && s[k + 2] == 50 && s[k + 3] == 48 && s[k + 4]
        == DOLLAR {
        out.push(SPACE);
        assert(out@ =~= old(out)@ + seq![SPACE]);
        return 5;
    }
    if m >= 2 && s[k] == DOT && s[k + 1] == DOT {
        out.push(COLON);
        out.push(COLON);
        assert(out@ =~= old(out)@ + seq![COLON, COLON]);
        return 2;
    }
    0
}

/// Appends the name `s[a..b]` with its Rust escapes decoded.
fn push_unescaped(out: &mut Vec<u8>, s: &[u8], a: usize, b: usize)
    requires
        a <= b <= s.len(),
    ensures
        final(out)@ == old(out)@ + unescape(s@.subrange(a as int, b as int)),
{
    let mut k: usize = a;
    while k < b
        invariant
            a <= k <= b <= s.len(),
            out@ + unescape(s@.subrange(k as int, b as int)) == old(out)@ + unescape(
                s@.subrange(a as int, b as int),
            ),
        decreases b - k,
    {
        let ghost before = out@;
        let ghost n = s@.subrange(k as int, b as int);
        let used = push_escape(out, s, k, b);
        if used > 0 {
            assert(n.subrange(used as int, n.len() as int) =~= s@.subrange(k + used, b as int));
            assert(out@ + unescape(s@.subrange(k + used, b as int)) =~= before + unescape(n));
            k = k + used;
        } else {
            out.push(s[k]);
            assert(n.drop_first() =~= s@.subrange(k + 1, b as int));
            assert(n[0] == s@[k as int]);
            assert(out@ + unescape(s@.subrange(k + 1, b as int)) =~= before + unescape(n));
            k = k + 1;
        }
    }
    assert(unescape(s@.subrange(b as int, b as int)) =~= Seq::<u8>::empty());
    assert(out@ + Seq::<u8>::empty() =~= out@);
}

/// The display form of `s` where the grammar accepts it.
fn parse_mangled(s: &[u8]) -> (r: Option<Vec<u8>>)
    ensures
        r.is_some() == parse(s@).is_some(),
        r.is_some() ==> r.unwrap()@ == parse(s@).unwrap(),
{
    if s.len() < 3 || s[0] != UNDERSCORE || s[1] != PREFIX_Z {
        return None;
    }
    if !all_symbol_bytes(s) {
        return None;
    }
    if s[2] != NESTED_MARK {
        let (a, b) = match find_name(s, 2) {
            Some(p) => p,
            None => return None,
        };
        if b >= s.len() {
            return None;
        }
        let mut out: Vec<u8> = Vec::new();
        push_unescaped(&mut out, s, a, b);
        assert(out@ =~= unescape(s@.subrange(a as int, b as int)));
        if push_args(s, b, &mut out) {
            return Some(out);
        }
        return None;
    }
    let mut out: Vec<u8> = Vec::new();
    let ghost acc: Seq<Seq<u8>> = Seq::empty();
    let mut count: usize = 0;
    let mut k: usize = 3;
    assert(acc + Seq::<Seq<u8>>::empty() =~= acc);
    assert(parse(s@) == parse_nested(s@));
    loop
        invariant
            parse(s@) == parse_nested(s@),
            3 <= k <= s.len(),
            count == acc.len(),
            count <= k,
            k < s.len() || names_at(s@, k as int) is None,
            out@ == join(acc, path_sep()),
            match names_at(s@, k as int) {
                None => names_at(s@, 3) is None,
                Some((rest, e)) => names_at(s@, 3) == Some((acc + rest, e)),
            },
        ensures
            k < s.len(),
            parse(s@) == parse_nested(s@),
            count == acc.len(),
            out@ == join(acc, path_sep()),
            names_at(s@, 3) == Some((acc, k + 1)),
        decreases s.len() - k,
    {
        if k >= s.len() {
            return None;
        }
        if s[k] == END_MARK {
            assert(names_at(s@, k as int) == Some((Seq::<Seq<u8>>::empty(), k + 1)));
            assert(acc + Seq::<Seq<u8>>::empty() =~= acc);
            break;
        }
        let (a, b) = match find_name(s, k) {
            Some(p) => p,
            None => return None,
        };
        if count > 0 {
            out.push(COLON);
            out.push(COLON);
        }
        push_unescaped(&mut out, s, a, b);
        proof {
            let n = unescape(s@.subrange(a as int, b as int));
            let acc2 = acc.push(n);
            assert(acc2.drop_last() =~= acc);
            assert(acc2.last() == n);
            if acc.len() == 0 {
                assert(join(acc2, path_sep()) == n);
                assert(out@ =~= join(acc2, path_sep()));
            } else {
                assert(out@ =~= join(acc2, path_sep()));
            }
            match names_at(s@, b as int) {
                None => {},
                Some((rest, e)) => {
                    assert(acc + (seq![n] + rest) =~= acc2 + rest);
                },
            }
            acc = acc2;
        }
        count = count + 1;
        k = b;
    }
    if count < 2 {
        return None;
    }
    let e: usize = k + 1;
    if e >= s.len() {
        return Some(out);
    }
    if push_args(s, e, &mut out) {
        return Some(out);
    }
    None
}

/// The display form of a symbol name: demangled where the grammar accepts
/// it, the input unchanged otherwise. Never fails.
pub fn demangle(s: &[u8]) -> (r: Vec<u8>)
    ensures
        r@ == demangled(s@),
{
    match parse_mangled(s) {
        Some(d) => d,
        None => {
            let mut out: Vec<u8> = Vec::new();
            push_range(&mut out, s, 0, s.len());
            assert(out@ =~= s@);
            out
        },
    }
}

} // verus!

verus! {

/// Demangling is idempotent: a display form holds `::` or `(`, which no
/// mangled name holds, so demangling it again returns it unchanged; an
/// input that no scheme accepts is returned unchanged each time.
pub proof fn lemma_demangle_idempotent(s: Seq<u8>)
    ensures
        demangled(demangled(s)) == demangled(s),
{
    if let Some(d) = parse(s) {
        if s[2] == NESTED_MARK {
            let (names, e) = names_at(s, 3).unwrap();
            let p = join(names.drop_last(), path_sep()).len() as int;
            assert(join(names, path_sep())[p] == COLON);
            if e < s.len() {
                let ts = types_at(s, e).unwrap();
                assert(d == join(names, path_sep()) + arg_list(s, e, ts));
            }
            assert(d[p] == COLON);
            assert(!is_symbol_byte(d[p]));
        } else {
            let (n, k) = name_at(s, 2).unwrap();
            let ts = types_at(s, k).unwrap();
            assert(arg_list(s, k, ts)[0] == OPEN_PAREN);
            let u = unescape(n);
            assert(d == u + arg_list(s, k, ts));
            assert(d[u.len() as int] == OPEN_PAREN);
            assert(!is_symbol_byte(d[u.len() as int]));
        }
        assert(parse(d) is None);
    }
}

} // verus!

verus! {

/// Input that the grammar does not accept, of any length, is returned
/// unchanged.
pub proof fn lemma_unrecognised_passes_through(s: Seq<u8>)
    requires
        parse(s) is None,
    ensures
        demangled(s) == s,
{
}

} // verus!
