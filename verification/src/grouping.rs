use vstd::prelude::*;

use crate::text::{chars_to_string, range_to_string, to_char_vec};

verus! {

/// Length of the run of copies of `c` at the end of `t`.
pub open spec fn trailing_run(t: Seq<char>, c: char) -> nat
    decreases t.len(),
{
    if t.len() > 0 && t.last() == c {
        1 + trailing_run(t.drop_last(), c)
    } else {
        0
    }
}

/// `t` with every trailing copy of `c` removed.
pub open spec fn trim_trailing(t: Seq<char>, c: char) -> Seq<char> {
    t.take(t.len() - trailing_run(t, c))
}

/// A rendered decimal with its trailing zeros removed, and then any
/// trailing decimal points removed: the minimal form used by the regular
/// and grouped display styles.
pub open spec fn spec_trim_number(t: Seq<char>) -> Seq<char> {
    trim_trailing(trim_trailing(t, '0'), '.')
}

/// The digit-grouped rendering of `t` from position `i` on: a separator
/// falls before position `j` exactly when `j > 0` and the number of
/// characters from `j` to the end is a positive multiple of three.
pub open spec fn group_from(t: Seq<char>, i: int) -> Seq<char>
    decreases t.len() - i,
{
    if i < 0 || i >= t.len() {
        Seq::empty()
    } else {
        (if i > 0 && (t.len() - i) % 3 == 0 {
            seq![',']
        } else {
            Seq::empty()
        }) + seq![t[i]] + group_from(t, i + 1)
    }
}

/// Digit grouping of a bare (unsigned) digit string.
pub open spec fn spec_group_plain(t: Seq<char>) -> Seq<char> {
    group_from(t, 0)
}

/// Digit grouping of a possibly negative digit string: a leading minus
/// sign is set aside and reattached unchanged.
pub open spec fn spec_group_signed(t: Seq<char>) -> Seq<char> {
    if t.len() > 0 && t[0] == '-' {
        seq!['-'] + group_from(t.skip(1), 0)
    } else {
        group_from(t, 0)
    }
}

/// Index of the first occurrence of `c` in `t`, or `t.len()` if absent.
pub open spec fn first_pos(t: Seq<char>, c: char) -> int
    decreases t.len(),
{
    if t.len() == 0 {
        0
    } else if t[0] == c {
        0
    } else {
        1 + first_pos(t.skip(1), c)
    }
}

/// The grouped-triads rendering of a trimmed decimal string: the integer
/// portion (up to the first `.`) is digit-grouped, the rest is kept.
pub open spec fn spec_triads(t: Seq<char>) -> Seq<char> {
    let d = first_pos(t, '.');
    spec_group_signed(t.take(d)) + t.skip(d)
}

/// `t` with every comma removed, written as a recursion from position `i`.
pub open spec fn remove_commas_from(t: Seq<char>, i: int) -> Seq<char>
    decreases t.len() - i,
{
    if i < 0 || i >= t.len() {
        Seq::empty()
    } else {
        (if t[i] == ',' {
            Seq::empty()
        } else {
            seq![t[i]]
        }) + remove_commas_from(t, i + 1)
    }
}

/// `t` with every comma removed.
pub open spec fn spec_remove_commas(t: Seq<char>) -> Seq<char> {
    remove_commas_from(t, 0)
}

/// `first_pos` lands on `c` or at the end, and nothing before it is `c`.
pub proof fn lemma_first_pos(t: Seq<char>, c: char)
    ensures
        0 <= first_pos(t, c) <= t.len(),
        first_pos(t, c) < t.len() ==> t[first_pos(t, c)] == c,
        forall|j: int| 0 <= j < first_pos(t, c) ==> t[j] != c,
    decreases t.len(),
{
    if t.len() > 0 && t[0] != c {
        lemma_first_pos(t.skip(1), c);
        assert forall|j: int| 0 <= j < first_pos(t, c) implies t[j] != c by {
            if j > 0 {
                assert(t.skip(1)[j - 1] == t[j]);
            }
        }
    }
}

/// If everything from `e` on is `c` and the character before `e` is not,
/// the trailing run of `c` is exactly what follows `e`.
proof fn lemma_trailing_run_at(t: Seq<char>, c: char, e: int)
    requires
        0 <= e <= t.len(),
        forall|j: int| e <= j < t.len() ==> t[j] == c,
        e > 0 ==> t[e - 1] != c,
    ensures
        trailing_run(t, c) == t.len() - e,
    decreases t.len(),
{
    if e == t.len() {
        if t.len() > 0 {
            assert(t.last() != c);
        }
    } else {
        assert(t.last() == c);
        lemma_trailing_run_at(t.drop_last(), c, e);
    }
}

/// Executable form of `trim_trailing` on a prefix of a vector: returns the
/// end index after removing the trailing run of `c` from `v[..hi]`.
fn trim_end_index(v: &Vec<char>, hi: usize, c: char) -> (e: usize)
    requires
        hi <= v@.len(),
    ensures
        e <= hi,
        v@.subrange(0, e as int) == trim_trailing(v@.subrange(0, hi as int), c),
{
    let mut e: usize = hi;
    while e > 0 && v[e - 1] == c
        invariant
            e <= hi <= v@.len(),
            forall|j: int| e <= j < hi ==> v@[j] == c,
        decreases e,
    {
        e = e - 1;
    }
    proof {
        let t = v@.subrange(0, hi as int);
        lemma_trailing_run_at(t, c, e as int);
        assert(v@.subrange(0, e as int) =~= t.take(hi - trailing_run(t, c)));
    }
    e
}

/// Removes the trailing zeros of a rendered decimal, then any trailing
/// decimal point, as the regular display style does before printing.
pub fn trim_number(s: &str) -> (r: String)
    ensures
        r@ == spec_trim_number(s@),
{
    let v = to_char_vec(s);
    let e1 = trim_end_index(&v, v.len(), '0');
    proof {
        assert(v@.subrange(0, v@.len() as int) =~= v@);
    }
    let e2 = trim_end_index(&v, e1, '.');
    range_to_string(&v, 0, e2)
}

/// Inserts a comma separator every three digits, counted from the right,
/// into the digit string `v[lo..]`; `lo` skips a leading minus sign.
fn group_digits_from(v: &Vec<char>, lo: usize, out: &mut Vec<char>)
    requires
        lo <= v@.len(),
    ensures
        final(out)@ == old(out)@ + group_from(v@.skip(lo as int), 0),
{
    let ghost t = v@.skip(lo as int);
    let len = v.len() - lo;
    let mut i: usize = 0;
    while i < len
        invariant
            t == v@.skip(lo as int),
            len == t.len(),
            lo + len == v@.len(),
            v@.len() <= usize::MAX,
            i <= len,
            out@ + group_from(t, i as int) == old(out)@ + group_from(t, 0),
        decreases len - i,
    {
        if i > 0 && (len - i) % 3 == 0 {
            out.push(',');
        }
        out.push(v[lo + i]);
        proof {
            assert(t[i as int] == v@[lo + i]);
        }
        i = i + 1;
    }
}

/// Groups the digits of an unsigned decimal string by threes with commas,
/// as the exact-factorial display does.
pub fn format_with_separators(s: &str) -> (r: String)
    ensures
        r@ == spec_group_plain(s@),
{
    let v = to_char_vec(s);
    let mut out: Vec<char> = Vec::new();
    group_digits_from(&v, 0, &mut out);
    proof {
        assert(v@.skip(0) =~= v@);
    }
    chars_to_string(&out)
}

/// Groups the digits of a decimal string by threes with commas, setting a
/// leading minus sign aside.
pub fn add_thousands_separators(s: &str) -> (r: String)
    ensures
        r@ == spec_group_signed(s@),
{
    let v = to_char_vec(s);
    let mut out: Vec<char> = Vec::new();
    if v.len() > 0 && v[0] == '-' {
        out.push('-');
        group_digits_from(&v, 1, &mut out);
        proof {
            assert(out@ =~= seq!['-'] + group_from(v@.skip(1), 0));
        }
    } else {
        group_digits_from(&v, 0, &mut out);
        proof {
            assert(v@.skip(0) =~= v@);
        }
    }
    chars_to_string(&out)
}

/// Finds the first occurrence of `c` in `v`, or `v.len()` if absent.
fn find_first(v: &Vec<char>, c: char) -> (p: usize)
    ensures
        p == first_pos(v@, c),
{
    let mut i: usize = 0;
    while i < v.len()
        invariant
            i <= v@.len(),
            forall|j: int| 0 <= j < i ==> v@[j] != c,
        decreases v@.len() - i,
    {
        if v[i] == c {
            proof {
                lemma_first_pos_unique(v@, c, i as int);
            }
            return i;
        }
        i = i + 1;
    }
    proof {
        lemma_first_pos_unique(v@, c, v@.len() as int);
    }
    i
}

/// `first_pos` is determined by any witness position: if `t[p]` is the
/// first `c` (or `p` is the length and `c` is absent), `first_pos` is `p`.
proof fn lemma_first_pos_unique(t: Seq<char>, c: char, p: int)
    requires
        0 <= p <= t.len(),
        p < t.len() ==> t[p] == c,
        forall|j: int| 0 <= j < p ==> t[j] != c,
    ensures
        first_pos(t, c) == p,
    decreases t.len(),
{
    if t.len() > 0 && t[0] != c {
        lemma_first_pos_unique(t.skip(1), c, p - 1);
    }
}

/// The grouped-triads display: trims the rendered decimal, groups the
/// integer portion by threes, and reattaches the decimal portion.
pub fn triads_format(s: &str) -> (r: String)
    ensures
        r@ == spec_triads(spec_trim_number(s@)),
{
    let trimmed = trim_number(s);
    let v = to_char_vec(trimmed.as_str());
    let d = find_first(&v, '.');
    proof {
        lemma_first_pos(v@, '.');
    }
    let int_part = range_to_string(&v, 0, d);
    let grouped = add_thousands_separators(int_part.as_str());
    let frac_part = range_to_string(&v, d, v.len());
    let mut out = grouped;
    out.append(frac_part.as_str());
    proof {
        assert(v@.subrange(0, d as int) =~= v@.take(d as int));
        assert(v@.subrange(d as int, v@.len() as int) =~= v@.skip(d as int));
    }
    out
}

/// Removes every comma from `s`: the caller-side inverse of digit
/// grouping, applied before a displayed value is fed back in.
pub fn strip_separators(s: &str) -> (r: String)
    ensures
        r@ == spec_remove_commas(s@),
{
    let v = to_char_vec(s);
    let mut out: Vec<char> = Vec::new();
    let mut i: usize = 0;
    while i < v.len()
        invariant
            i <= v@.len(),
            out@ + remove_commas_from(v@, i as int) == remove_commas_from(v@, 0),
        decreases v@.len() - i,
    {
        if v[i] != ',' {
            out.push(v[i]);
        }
        i = i + 1;
    }
    chars_to_string(&out)
}

/// A sequence of `k` zero characters, as appended by a fixed-precision
/// rendering beyond the significant digits.
pub open spec fn zeros(k: nat) -> Seq<char> {
    Seq::new(k, |i: int| '0')
}

/// Comma removal splits over concatenation.
proof fn lemma_remove_commas_shift(a: Seq<char>, b: Seq<char>, k: int)
    requires
        0 <= k <= b.len(),
    ensures
        remove_commas_from(a + b, a.len() + k) == remove_commas_from(b, k),
    decreases b.len() - k,
{
    if k < b.len() {
        assert((a + b)[a.len() + k] == b[k]);
        lemma_remove_commas_shift(a, b, k + 1);
    }
}

/// Comma removal distributes over concatenation.
proof fn lemma_remove_commas_concat(a: Seq<char>, b: Seq<char>, i: int)
    requires
        0 <= i <= a.len(),
    ensures
        remove_commas_from(a + b, i) == remove_commas_from(a, i) + remove_commas_from(b, 0),
    decreases a.len() - i,
{
    if i == a.len() {
        lemma_remove_commas_shift(a, b, 0);
        assert(remove_commas_from(a, i) + remove_commas_from(b, 0) =~= remove_commas_from(
            b,
            0,
        ));
    } else {
        assert((a + b)[i] == a[i]);
        lemma_remove_commas_concat(a, b, i + 1);
    }
}

/// On a comma-free string, comma removal is the identity.
proof fn lemma_remove_commas_id(t: Seq<char>, i: int)
    requires
        0 <= i <= t.len(),
        forall|j: int| 0 <= j < t.len() ==> t[j] != ',',
    ensures
        remove_commas_from(t, i) == t.skip(i),
    decreases t.len() - i,
{
    if i == t.len() {
        assert(remove_commas_from(t, i) =~= t.skip(i));
    } else {
        lemma_remove_commas_id(t, i + 1);
        assert(remove_commas_from(t, i) =~= seq![t[i]] + t.skip(i + 1));
        assert(seq![t[i]] + t.skip(i + 1) =~= t.skip(i));
    }
}

/// Comma removal on a one-character string.
proof fn lemma_remove_commas_single(c: char)
    ensures
        remove_commas_from(seq![c], 0) == if c == ',' {
            Seq::<char>::empty()
        } else {
            seq![c]
        },
{
    assert(remove_commas_from(seq![c], 1) =~= Seq::<char>::empty());
    if c == ',' {
        assert(remove_commas_from(seq![c], 0) =~= Seq::<char>::empty());
    } else {
        assert(remove_commas_from(seq![c], 0) =~= seq![c]);
    }
}

/// Removing the commas that digit grouping inserted restores the digits.
proof fn lemma_remove_group_from(t: Seq<char>, i: int)
    requires
        0 <= i <= t.len(),
        forall|j: int| 0 <= j < t.len() ==> t[j] != ',',
    ensures
        remove_commas_from(group_from(t, i), 0) == t.skip(i),
    decreases t.len() - i,
{
    if i == t.len() {
        assert(t.skip(i) =~= Seq::<char>::empty());
    } else {
        lemma_remove_group_from(t, i + 1);
        let sep: Seq<char> = if i > 0 && (t.len() - i) % 3 == 0 {
            seq![',']
        } else {
            Seq::empty()
        };
        let head = sep + seq![t[i]];
        assert(group_from(t, i) == head + group_from(t, i + 1));
        lemma_remove_commas_concat(head, group_from(t, i + 1), 0);
        lemma_remove_commas_concat(sep, seq![t[i]], 0);
        lemma_remove_commas_single(t[i]);
        lemma_remove_commas_single(',');
        assert(remove_commas_from(sep, 0) =~= Seq::<char>::empty());
        assert(remove_commas_from(head, 0) =~= seq![t[i]]);
        assert(seq![t[i]] + t.skip(i + 1) =~= t.skip(i));
    }
}

/// Law: stripping separators undoes grouped-triads rendering. For any
/// comma-free string, removing every comma from its grouped-triads form
/// gives back the string itself.
pub proof fn lemma_strip_undoes_triads(t: Seq<char>)
    requires
        forall|j: int| 0 <= j < t.len() ==> t[j] != ',',
    ensures
        spec_remove_commas(spec_triads(t)) == t,
{
    let d = first_pos(t, '.');
    lemma_first_pos(t, '.');
    let ip = t.take(d);
    let fp = t.skip(d);
    lemma_remove_commas_concat(spec_group_signed(ip), fp, 0);
    lemma_remove_commas_id(fp, 0);
    assert(fp.skip(0) =~= fp);
    if ip.len() > 0 && ip[0] == '-' {
        let u = ip.skip(1);
        assert(forall|j: int| 0 <= j < u.len() ==> u[j] != ',');
        lemma_remove_group_from(u, 0);
        assert(u.skip(0) =~= u);
        lemma_remove_commas_concat(seq!['-'], group_from(u, 0), 0);
        lemma_remove_commas_single('-');
        assert(seq!['-'] + u =~= ip);
    } else {
        assert(forall|j: int| 0 <= j < ip.len() ==> ip[j] != ',');
        lemma_remove_group_from(ip, 0);
        assert(ip.skip(0) =~= ip);
    }
    assert(ip + fp =~= t);
}

/// Law: trimming undoes a fixed-precision re-rendering. A minimal decimal
/// string — one that, if it contains a decimal point, ends in neither `0`
/// nor `.` — comes back unchanged when zeros (and, for an integer string,
/// a decimal point) are appended and the result is trimmed again.
pub proof fn lemma_trim_restores_minimal(s: Seq<char>, k: nat)
    ensures
        s.len() > 0 && s.contains('.') && s.last() != '0' && s.last() != '.'
            ==> spec_trim_number(s + zeros(k)) == s,
        !s.contains('.') ==> spec_trim_number(s + seq!['.'] + zeros(k)) == s,
{
    if s.len() > 0 && s.contains('.') && s.last() != '0' && s.last() != '.' {
        let u = s + zeros(k);
        lemma_trailing_run_at(u, '0', s.len() as int);
        assert(u.take(s.len() as int) =~= s);
        lemma_trailing_run_at(s, '.', s.len() as int);
        assert(trim_trailing(s, '.') =~= s);
    }
    if !s.contains('.') {
        let u = s + seq!['.'] + zeros(k);
        assert(u[s.len() as int] == '.');
        lemma_trailing_run_at(u, '0', s.len() as int + 1);
        assert(u.take(s.len() as int + 1) =~= s + seq!['.']);
        let w = s + seq!['.'];
        assert(forall|j: int| 0 <= j < s.len() ==> s[j] != '.');
        lemma_trailing_run_at(w, '.', s.len() as int);
        assert(w.take(s.len() as int) =~= s);
    }
}

} // verus!
