use vstd::prelude::*;

verus! {

/// `pat` occurs in `s` at position `i`.
pub open spec fn matches_at(s: Seq<u8>, pat: Seq<u8>, i: int) -> bool {
    &&& 0 <= i
    &&& i + pat.len() <= s.len()
    &&& s.subrange(i, i + pat.len()) == pat
}

/// The first position at or after `i` where `pat` occurs in `s`.
pub open spec fn find_from(s: Seq<u8>, pat: Seq<u8>, i: int) -> Option<int>
    decreases s.len() - i,
    when pat.len() >= 1
{
    if i + pat.len() > s.len() {
        None
    } else if matches_at(s, pat, i) {
        Some(i)
    } else {
        find_from(s, pat, i + 1)
    }
}

/// The last position at or before `i` where `pat` occurs in `s`.
pub open spec fn rfind_at(s: Seq<u8>, pat: Seq<u8>, i: int) -> Option<int>
    decreases i + 1,
{
    if i < 0 {
        None
    } else if matches_at(s, pat, i) {
        Some(i)
    } else {
        rfind_at(s, pat, i - 1)
    }
}

/// Compares `pat` against `s` at position `i`.
pub fn eq_at(s: &Vec<u8>, pat: &Vec<u8>, i: usize) -> (r: bool)
    requires
        pat@.len() >= 1,
        i + pat@.len() <= s@.len(),
    ensures
        r == matches_at(s@, pat@, i as int),
{
    let slen = s.len();
    let mut j: usize = 0;
    while j < pat.len()
        invariant
            slen == s@.len(),
            i + pat@.len() <= s@.len(),
            j <= pat@.len(),
            forall|jj: int| 0 <= jj < j ==> s@[i + jj] == pat@[jj],
        decreases pat@.len() - j,
    {
        if s[i + j] != pat[j] {
            proof {
                if matches_at(s@, pat@, i as int) {
                    assert(s@.subrange(i as int, i + pat@.len())[j as int] == pat@[j as int]);
                }
            }
            return false;
        }
        j = j + 1;
    }
    proof {
        assert(s@.subrange(i as int, i + pat@.len()) =~= pat@);
    }
    true
}

/// The leftmost occurrence of `pat` in `s` at or after `start`, if any.
pub fn find_sub(s: &Vec<u8>, pat: &Vec<u8>, start: usize) -> (r: Option<usize>)
    requires
        pat@.len() >= 1,
    ensures
        (match r {
            Some(idx) => find_from(s@, pat@, start as int) == Some(idx as int),
            None => find_from(s@, pat@, start as int) is None,
        }),
{
    if pat.len() > s.len() {
        return None;
    }
    let mut i: usize = start;
    while i <= s.len() - pat.len()
        invariant
            pat@.len() <= s@.len(),
            pat@.len() >= 1,
            find_from(s@, pat@, start as int) == find_from(s@, pat@, i as int),
        decreases s@.len() - i,
    {
        if eq_at(s, pat, i) {
            return Some(i);
        }
        i = i + 1;
    }
    None
}

/// The rightmost occurrence of `pat` in `s`, if any.
pub fn rfind_sub(s: &Vec<u8>, pat: &Vec<u8>) -> (r: Option<usize>)
    requires
        pat@.len() >= 1,
    ensures
        (match r {
            Some(idx) => rfind_at(s@, pat@, s@.len() - pat@.len()) == Some(idx as int),
            None => rfind_at(s@, pat@, s@.len() - pat@.len()) is None,
        }),
{
    if pat.len() > s.len() {
        return None;
    }
    let mut i: usize = s.len() - pat.len();
    loop
        invariant
            pat@.len() >= 1,
            pat@.len() <= s@.len(),
            i <= s@.len() - pat@.len(),
            rfind_at(s@, pat@, s@.len() - pat@.len()) == rfind_at(s@, pat@, i as int),
        decreases i,
    {
        if eq_at(s, pat, i) {
            return Some(i);
        }
        if i == 0 {
            proof {
                assert(rfind_at(s@, pat@, -1) is None);
            }
            return None;
        }
        i = i - 1;
    }
}

/// `s` with every leftmost, non-overlapping occurrence of `pat` replaced by
/// `rep`; a final fragment shorter than `pat` is kept as it is.
pub open spec fn replace_all(s: Seq<u8>, pat: Seq<u8>, rep: Seq<u8>) -> Seq<u8>
    decreases s.len(),
    when pat.len() >= 1
{
    if s.len() < pat.len() {
        s
    } else if s.subrange(0, pat.len() as int) == pat {
        rep + replace_all(s.skip(pat.len() as int), pat, rep)
    } else {
        seq![s[0]] + replace_all(s.skip(1), pat, rep)
    }
}

/// Appends `src` to `dst`.
pub fn push_bytes(dst: &mut Vec<u8>, src: &Vec<u8>)
    ensures
        final(dst)@ == old(dst)@ + src@,
{
    let mut j: usize = 0;
    while j < src.len()
        invariant
            j <= src@.len(),
            dst@ == old(dst)@ + src@.take(j as int),
        decreases src@.len() - j,
    {
        dst.push(src[j]);
        proof {
            assert(old(dst)@ + src@.take(j + 1) =~= (old(dst)@ + src@.take(j as int)).push(
                src@[j as int],
            ));
        }
        j = j + 1;
    }
    proof {
        assert(old(dst)@ + src@.take(src@.len() as int) =~= old(dst)@ + src@);
    }
}

/// Replaces every leftmost, non-overlapping occurrence of `pat` in `s` by
/// `rep`.
pub fn replace_all_bytes(s: &Vec<u8>, pat: &Vec<u8>, rep: &Vec<u8>) -> (r: Vec<u8>)
    requires
        pat@.len() >= 1,
    ensures
        r@ == replace_all(s@, pat@, rep@),
{
    let mut out: Vec<u8> = Vec::new();
    let mut i: usize = 0;
    proof {
        assert(s@.skip(0) =~= s@);
        assert(Seq::<u8>::empty() + replace_all(s@, pat@, rep@) =~= replace_all(s@, pat@, rep@));
    }
    while i < s.len()
        invariant
            i <= s@.len(),
            pat@.len() >= 1,
            replace_all(s@, pat@, rep@) == out@ + replace_all(s@.skip(i as int), pat@, rep@),
        decreases s@.len() - i,
    {
        let ghost rem = s@.skip(i as int);
        if s.len() - i >= pat.len() && eq_at(s, pat, i) {
            proof {
                assert(rem.subrange(0, pat@.len() as int) =~= s@.subrange(i as int, i + pat@.len()));
                assert(rem.skip(pat@.len() as int) =~= s@.skip(i + pat@.len()));
            }
            push_bytes(&mut out, rep);
            i = i + pat.len();
        } else {
            proof {
                if rem.len() >= pat.len() {
                    assert(rem.subrange(0, pat@.len() as int) =~= s@.subrange(
                        i as int,
                        i + pat@.len(),
                    ));
                }
                assert(rem.skip(1) =~= s@.skip(i + 1));
                assert(rem =~= seq![s@[i as int]] + s@.skip(i + 1));
                if rem.len() < pat.len() {
                    assert(s@.skip(i + 1).len() < pat@.len());
                    assert(replace_all(s@.skip(i + 1), pat@, rep@) == s@.skip(i + 1));
                    assert(replace_all(rem, pat@, rep@) == rem);
                }
            }
            let b = s[i];
            out.push(b);
            i = i + 1;
        }
        proof {
            assert(replace_all(s@, pat@, rep@) == out@ + replace_all(
                s@.skip(i as int),
                pat@,
                rep@,
            ));
        }
    }
    proof {
        assert(s@.skip(s@.len() as int).len() == 0);
        assert(out@ + replace_all(s@.skip(s@.len() as int), pat@, rep@) =~= out@);
    }
    out
}

/// The lower-case hexadecimal digit of `d`.
pub open spec fn hex_digit(d: int) -> u8 {
    if d < 10 {
        (48 + d) as u8
    } else {
        (87 + d) as u8
    }
}

/// Two lower-case hexadecimal digits of a byte value.
pub open spec fn hex_byte(v: int) -> Seq<u8> {
    seq![hex_digit(v / 16), hex_digit(v % 16)]
}

/// `#rrggbb`, lower-case, for one RGB triple.
pub open spec fn hex_color(r: u8, g: u8, b: u8) -> Seq<u8> {
    seq!['#' as u8] + hex_byte(r as int) + hex_byte(g as int) + hex_byte(b as int)
}

fn push_hex_byte(out: &mut Vec<u8>, v: u8)
    ensures
        final(out)@ == old(out)@ + hex_byte(v as int),
{
    let hi = v / 16;
    let lo = v % 16;
    out.push(if hi < 10 { 48 + hi } else { 87 + hi });
    out.push(if lo < 10 { 48 + lo } else { 87 + lo });
    proof {
        assert(out@ =~= old(out)@ + hex_byte(v as int));
    }
}

/// The `#rrggbb` form of an RGB triple, lower-case, as the document writes it.
pub fn hex_color_bytes(r: u8, g: u8, b: u8) -> (out: Vec<u8>)
    ensures
        out@ == hex_color(r, g, b),
{
    let mut out: Vec<u8> = Vec::new();
    out.push('#' as u8);
    push_hex_byte(&mut out, r);
    push_hex_byte(&mut out, g);
    push_hex_byte(&mut out, b);
    proof {
        assert(out@ =~= hex_color(r, g, b));
    }
    out
}

/// The decimal digits of a non-negative number.
pub open spec fn dec_digits(n: int) -> Seq<u8>
    decreases n,
{
    if n < 0 {
        Seq::empty()
    } else if n < 10 {
        seq![(48 + n) as u8]
    } else {
        dec_digits(n / 10) + seq![(48 + n % 10) as u8]
    }
}

/// The decimal digits of `n`.
pub fn u32_dec(n: u32) -> (r: Vec<u8>)
    ensures
        r@ == dec_digits(n as int),
    decreases n,
{
    if n < 10 {
        let mut v: Vec<u8> = Vec::new();
        v.push(48 + (n as u8));
        proof {
            assert(v@ =~= dec_digits(n as int));
        }
        v
    } else {
        let mut v = u32_dec(n / 10);
        v.push(48 + ((n % 10) as u8));
        proof {
            assert(v@ =~= dec_digits(n as int));
        }
        v
    }
}

} // verus!
