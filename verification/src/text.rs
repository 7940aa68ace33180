use vstd::prelude::*;

verus! {

// ---------------------------------------------------------------------------
// Decimal rendering of indices, used for index-based reference file names.
// ---------------------------------------------------------------------------

pub open spec fn digit_char(d: nat) -> char {
    if d == 0 {
        '0'
    } else if d == 1 {
        '1'
    } else if d == 2 {
        '2'
    } else if d == 3 {
        '3'
    } else if d == 4 {
        '4'
    } else if d == 5 {
        '5'
    } else if d == 6 {
        '6'
    } else if d == 7 {
        '7'
    } else if d == 8 {
        '8'
    } else {
        '9'
    }
}

pub open spec fn is_digit_char(c: char) -> bool {
    c == '0' || c == '1' || c == '2' || c == '3' || c == '4' || c == '5' || c == '6' || c == '7'
        || c == '8' || c == '9'
}

/// The decimal rendering of `n`, without leading zeros (and `0` itself as "0").
pub open spec fn dec_str(n: nat) -> Seq<char>
    decreases n,
{
    if n < 10 {
        seq![digit_char(n)]
    } else {
        dec_str(n / 10).push(digit_char(n % 10))
    }
}

pub open spec fn pow10(k: nat) -> nat
    decreases k,
{
    if k == 0 {
        1nat
    } else {
        10 * pow10((k - 1) as nat)
    }
}

pub proof fn lemma_dec_str_digits(n: nat)
    ensures
        forall|k: int| 0 <= k < dec_str(n).len() ==> is_digit_char(#[trigger] dec_str(n)[k]),
    decreases n,
{
    if n >= 10 {
        lemma_dec_str_digits(n / 10);
        let a = dec_str(n / 10);
        assert forall|k: int| 0 <= k < dec_str(n).len() implies is_digit_char(
            #[trigger] dec_str(n)[k],
        ) by {
            if k < a.len() {
                assert(dec_str(n)[k] == a[k]);
            } else {
                assert(dec_str(n)[k] == digit_char(n % 10));
            }
        }
    }
}

/// The length of the decimal rendering pins the magnitude of the number.
pub proof fn lemma_dec_str_bounds(n: nat)
    ensures
        dec_str(n).len() >= 1,
        n < pow10(dec_str(n).len() as nat),
        n >= 1 ==> pow10((dec_str(n).len() - 1) as nat) <= n,
    decreases n,
{
    if n < 10 {
        assert(pow10(0) == 1);
        assert(pow10(1) == 10 * pow10(0));
    } else {
        lemma_dec_str_bounds(n / 10);
        let l = dec_str(n / 10).len();
        assert(dec_str(n).len() == l + 1);
        assert(n / 10 >= 1);
        assert(pow10((l - 1) as nat) <= n / 10 < pow10(l as nat));
        assert(n < 10 * pow10(l as nat)) by {
            assert(n / 10 <= pow10(l as nat) - 1);
            assert(n == 10 * (n / 10) + n % 10);
            assert(10 * (n / 10) <= 10 * (pow10(l as nat) - 1)) by (nonlinear_arith)
                requires n / 10 <= pow10(l as nat) - 1;
        }
        assert(pow10(l as nat) == 10 * pow10((l - 1) as nat));
        assert(10 * pow10((l - 1) as nat) <= 10 * (n / 10)) by (nonlinear_arith)
            requires pow10((l - 1) as nat) <= n / 10;
        assert(10 * (n / 10) <= n);
    }
}

pub proof fn lemma_pow10_increases(a: nat, b: nat)
    ensures
        a <= b ==> pow10(a) <= pow10(b),
    decreases b,
{
    if b > 0 && a <= b - 1 {
        lemma_pow10_increases(a, (b - 1) as nat);
    }
}

pub proof fn lemma_dec_str_injective(m: nat, n: nat)
    requires
        dec_str(m) == dec_str(n),
    ensures
        m == n,
    decreases m,
{
    lemma_dec_str_bounds(m);
    lemma_dec_str_bounds(n);
    if m < 10 && n < 10 {
        assert(dec_str(m)[0] == digit_char(m));
        assert(dec_str(n)[0] == digit_char(n));
    } else if m < 10 && n >= 10 {
        assert(dec_str(n).len() == dec_str(n / 10).len() + 1);
    } else if m >= 10 && n < 10 {
        assert(dec_str(m).len() == dec_str(m / 10).len() + 1);
    } else {
        let a = dec_str(m / 10);
        let b = dec_str(n / 10);
        assert(a.push(digit_char(m % 10)) == b.push(digit_char(n % 10)));
        assert(a.len() == b.len());
        assert(a.push(digit_char(m % 10))[a.len() as int] == digit_char(m % 10));
        assert(b.push(digit_char(n % 10))[a.len() as int] == digit_char(n % 10));
        assert(m % 10 == n % 10);
        assert forall|k: int| 0 <= k < a.len() implies a[k] == b[k] by {
            assert(a[k] == a.push(digit_char(m % 10))[k]);
            assert(b[k] == b.push(digit_char(n % 10))[k]);
        }
        assert(a =~= b);
        lemma_dec_str_injective(m / 10, n / 10);
    }
}

/// A shorter decimal rendering that is a prefix of a longer one names a
/// strictly smaller number: stale high indices can never be shadowed by
/// fresh low ones.
pub proof fn lemma_dec_str_prefix(i: nat, j: nat)
    requires
        dec_str(i).is_prefix_of(dec_str(j)),
        i != j,
    ensures
        i < j,
        dec_str(i).len() < dec_str(j).len(),
    decreases j,
{
    lemma_dec_str_bounds(i);
    lemma_dec_str_bounds(j);
    if dec_str(i).len() == dec_str(j).len() {
        assert(dec_str(i) =~= dec_str(j));
        lemma_dec_str_injective(i, j);
        assert(false);
    }
    assert(dec_str(i).len() < dec_str(j).len());
    let li = dec_str(i).len();
    let lj = dec_str(j).len();
    assert(j >= 1) by {
        if j == 0 {
            assert(lj == 1);
            assert(li >= 1);
        }
    }
    assert(pow10((lj - 1) as nat) <= j);
    lemma_pow10_increases(li as nat, (lj - 1) as nat);
    assert(i < pow10(li as nat));
}

pub fn digit_literal(d: u64) -> (r: &'static str)
    requires
        d < 10,
    ensures
        r@ =~= seq![digit_char(d as nat)],
{
    proof {
        reveal_strlit("0");
        reveal_strlit("1");
        reveal_strlit("2");
        reveal_strlit("3");
        reveal_strlit("4");
        reveal_strlit("5");
        reveal_strlit("6");
        reveal_strlit("7");
        reveal_strlit("8");
        reveal_strlit("9");
    }
    if d == 0 {
        "0"
    } else if d == 1 {
        "1"
    } else if d == 2 {
        "2"
    } else if d == 3 {
        "3"
    } else if d == 4 {
        "4"
    } else if d == 5 {
        "5"
    } else if d == 6 {
        "6"
    } else if d == 7 {
        "7"
    } else if d == 8 {
        "8"
    } else {
        "9"
    }
}

/// Appends the decimal rendering of `n` to `s`.
pub fn push_dec(s: &mut String, n: u64)
    ensures
        final(s)@ == old(s)@ + dec_str(n as nat),
    decreases n,
{
    if n < 10 {
        s.append(digit_literal(n));
        assert(final(s)@ =~= old(s)@ + dec_str(n as nat));
    } else {
        push_dec(s, n / 10);
        s.append(digit_literal(n % 10));
        assert(final(s)@ =~= old(s)@ + dec_str(n as nat));
    }
}

/// The decimal rendering of `n` as a fresh string.
pub fn dec_string(n: u64) -> (r: String)
    ensures
        r@ == dec_str(n as nat),
{
    let mut s = String::new();
    push_dec(&mut s, n);
    assert(s@ =~= dec_str(n as nat));
    s
}

// ---------------------------------------------------------------------------
// Plain string utilities the store needs: equality, prefix test, whitespace
// trimming, extension extraction.
// ---------------------------------------------------------------------------

pub fn str_eq(s: &str, t: &str) -> (r: bool)
    ensures
        r == (s@ == t@),
{
    let n = s.unicode_len();
    let m = t.unicode_len();
    if n != m {
        assert(s@.len() != t@.len());
        return false;
    }
    let mut i: usize = 0;
    while i < n
        invariant
            n == s@.len(),
            n == t@.len(),
            0 <= i <= n,
            forall|k: int| 0 <= k < i ==> s@[k] == t@[k],
        decreases n - i,
    {
        if s.get_char(i) != t.get_char(i) {
            return false;
        }
        i += 1;
    }
    assert(s@ =~= t@);
    true
}

pub fn str_starts_with(s: &str, p: &str) -> (r: bool)
    ensures
        r == p@.is_prefix_of(s@),
{
    let n = s.unicode_len();
    let m = p.unicode_len();
    if m > n {
        return false;
    }
    let mut i: usize = 0;
    while i < m
        invariant
            n == s@.len(),
            m == p@.len(),
            m <= n,
            0 <= i <= m,
            forall|k: int| 0 <= k < i ==> s@[k] == p@[k],
        decreases m - i,
    {
        if s.get_char(i) != p.get_char(i) {
            return false;
        }
        i += 1;
    }
    assert(p@ =~= s@.subrange(0, m as int));
    true
}

pub open spec fn is_space(c: char) -> bool {
    c == ' ' || c == '\t' || c == '\n' || c == '\r'
}

fn is_space_exec(c: char) -> (r: bool)
    ensures
        r == is_space(c),
{
    c == ' ' || c == '\t' || c == '\n' || c == '\r'
}

pub open spec fn trim_front(s: Seq<char>) -> Seq<char>
    decreases s.len(),
{
    if s.len() > 0 && is_space(s[0]) {
        trim_front(s.drop_first())
    } else {
        s
    }
}

pub open spec fn trim_back(s: Seq<char>) -> Seq<char>
    decreases s.len(),
{
    if s.len() > 0 && is_space(s[s.len() - 1]) {
        trim_back(s.drop_last())
    } else {
        s
    }
}

/// `s` without leading and trailing ASCII whitespace.
pub open spec fn trim_spec(s: Seq<char>) -> Seq<char> {
    trim_back(trim_front(s))
}

/// A copy of `s` without leading and trailing ASCII whitespace.
pub fn trim(s: &str) -> (r: String)
    ensures
        r@ == trim_spec(s@),
{
    let n = s.unicode_len();
    proof {
        assert(s@.subrange(0, n as int) =~= s@);
    }
    let mut i: usize = 0;
    while i < n && is_space_exec(s.get_char(i))
        invariant
            n == s@.len(),
            0 <= i <= n,
            trim_front(s@) == trim_front(s@.subrange(i as int, n as int)),
        decreases n - i,
    {
        proof {
            let cur = s@.subrange(i as int, n as int);
            assert(cur[0] == s@[i as int]);
            assert(cur.drop_first() =~= s@.subrange(i as int + 1, n as int));
        }
        i += 1;
    }
    proof {
        let cur = s@.subrange(i as int, n as int);
        if i < n {
            assert(cur[0] == s@[i as int]);
        }
        assert(trim_front(cur) == cur);
        assert(trim_front(s@) == s@.subrange(i as int, n as int));
    }
    let mut j: usize = n;
    while j > i && is_space_exec(s.get_char(j - 1))
        invariant
            n == s@.len(),
            0 <= i <= j <= n,
            trim_front(s@) == s@.subrange(i as int, n as int),
            trim_back(s@.subrange(i as int, n as int)) == trim_back(
                s@.subrange(i as int, j as int),
            ),
        decreases j,
    {
        proof {
            let cur = s@.subrange(i as int, j as int);
            assert(cur[cur.len() - 1] == s@[j as int - 1]);
            assert(cur.drop_last() =~= s@.subrange(i as int, j as int - 1));
        }
        j -= 1;
    }
    proof {
        let cur = s@.subrange(i as int, j as int);
        if j > i {
            assert(cur[cur.len() - 1] == s@[j as int - 1]);
        }
        assert(trim_back(cur) == cur);
    }
    let out = s.substring_char(i, j);
    String::from_str(out)
}

// ---------------------------------------------------------------------------
// Filename extension of a path, for asset copies.
// ---------------------------------------------------------------------------

/// Walks `s` from the end accumulating characters until the nearest dot;
/// a path with no extension in its last component yields "bin".
pub open spec fn ext_scan(s: Seq<char>, acc: Seq<char>) -> Seq<char>
    decreases s.len(),
{
    if s.len() == 0 {
        "bin"@
    } else {
        let c = s[s.len() - 1];
        if c == '.' {
            if acc.len() == 0 {
                "bin"@
            } else {
                acc
            }
        } else if c == '/' {
            "bin"@
        } else {
            ext_scan(s.drop_last(), seq![c] + acc)
        }
    }
}

/// The extension of the last component of `s`, defaulting to "bin" when the
/// component has none.
pub open spec fn ext_of_spec(s: Seq<char>) -> Seq<char> {
    ext_scan(s, Seq::<char>::empty())
}

fn ext_scan_exec(s: &str, end: usize, acc: String) -> (r: String)
    requires
        end <= s@.len(),
    ensures
        r@ == ext_scan(s@.subrange(0, end as int), acc@),
    decreases end,
{
    if end == 0 {
        assert(s@.subrange(0, 0) =~= Seq::<char>::empty());
        String::from_str("bin")
    } else {
        proof {
            let cur = s@.subrange(0, end as int);
            assert(cur[cur.len() - 1] == s@[end - 1]);
            assert(cur.drop_last() =~= s@.subrange(0, end as int - 1));
        }
        let c = s.get_char(end - 1);
        if c == '.' {
            if acc.unicode_len() == 0 {
                assert(acc@ =~= Seq::<char>::empty());
                String::from_str("bin")
            } else {
                acc
            }
        } else if c == '/' {
            String::from_str("bin")
        } else {
            let cs = s.substring_char(end - 1, end);
            let acc2 = cs.to_owned().concat(acc.as_str());
            assert(cs@ =~= seq![s@[end - 1]]);
            ext_scan_exec(s, end - 1, acc2)
        }
    }
}

/// The extension of the last component of `path`, "bin" when it has none.
pub fn ext_of(path: &str) -> (r: String)
    ensures
        r@ == ext_of_spec(path@),
{
    let n = path.unicode_len();
    let r = ext_scan_exec(path, n, String::new());
    assert(path@.subrange(0, n as int) =~= path@);
    r
}

} // verus!
