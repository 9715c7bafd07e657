use vstd::prelude::*;

use crate::saves::{LoadError, SaveResource};

verus! {

/// Whether a byte is an ASCII decimal digit.
pub open spec fn is_digit(b: u8) -> bool {
    48 <= b <= 57
}

/// The canonical decimal digits of an unsigned value: no sign, no leading
/// zeros, a single `0` for zero.
pub open spec fn dec_u64(v: nat) -> Seq<u8>
    decreases v,
{
    if v < 10 {
        seq![(48 + v) as u8]
    } else {
        dec_u64(v / 10).push((48 + v % 10) as u8)
    }
}

/// The canonical decimal digits of a signed value: a minus sign before the
/// magnitude when negative.
pub open spec fn enc_i64(v: int) -> Seq<u8> {
    if v < 0 {
        seq![45u8] + dec_u64((-v) as nat)
    } else {
        dec_u64(v as nat)
    }
}

/// The value of a digit string, most significant digit first.
pub open spec fn digits_val(ds: Seq<u8>) -> nat
    decreases ds.len(),
{
    if ds.len() == 0 {
        0
    } else {
        digits_val(ds.drop_last()) * 10 + ((ds.last() - 48) as nat)
    }
}

pub proof fn lemma_dec_u64_props(v: nat)
    ensures
        dec_u64(v).len() >= 1,
        forall|i: int| 0 <= i < dec_u64(v).len() ==> is_digit(#[trigger] dec_u64(v)[i]),
        v >= 1 ==> dec_u64(v)[0] != 48,
        v == 0 ==> dec_u64(v) == seq![48u8],
    decreases v,
{
    if v >= 10 {
        lemma_dec_u64_props(v / 10);
    }
}

pub proof fn lemma_val_of_dec(v: nat)
    ensures
        digits_val(dec_u64(v)) == v,
    decreases v,
{
    if v < 10 {
        assert(dec_u64(v).drop_last() =~= Seq::<u8>::empty());
        assert(digits_val(Seq::<u8>::empty()) == 0);
        assert(dec_u64(v).last() == (48 + v) as u8);
        assert(((48 + v) as u8 - 48) as nat == v);
    } else {
        lemma_val_of_dec(v / 10);
        assert(dec_u64(v).drop_last() =~= dec_u64(v / 10));
        assert(dec_u64(v).last() == (48 + v % 10) as u8);
        assert(((48 + v % 10) as u8 - 48) as nat == v % 10);
        assert(digits_val(dec_u64(v)) == (v / 10) * 10 + v % 10);
        assert((v / 10) * 10 + v % 10 == v) by (nonlinear_arith);
    }
}

pub proof fn lemma_digits_val_pos(ds: Seq<u8>)
    requires
        ds.len() >= 1,
        forall|i: int| 0 <= i < ds.len() ==> is_digit(#[trigger] ds[i]),
        ds[0] != 48,
    ensures
        digits_val(ds) >= 1,
    decreases ds.len(),
{
    if ds.len() > 1 {
        lemma_digits_val_pos(ds.drop_last());
    }
}

pub proof fn lemma_dec_of_val(ds: Seq<u8>)
    requires
        ds.len() >= 1,
        forall|i: int| 0 <= i < ds.len() ==> is_digit(#[trigger] ds[i]),
        ds[0] != 48 || ds.len() == 1,
    ensures
        dec_u64(digits_val(ds)) == ds,
    decreases ds.len(),
{
    if ds.len() == 1 {
        assert(ds.drop_last() =~= Seq::<u8>::empty());
        assert(digits_val(Seq::<u8>::empty()) == 0);
        assert(digits_val(ds) == (ds[0] - 48));
        assert(dec_u64(digits_val(ds)) =~= ds);
    } else {
        let pre = ds.drop_last();
        lemma_dec_of_val(pre);
        lemma_digits_val_pos(pre);
        let v = digits_val(ds);
        assert(v == digits_val(pre) * 10 + (ds.last() - 48));
        assert(v / 10 == digits_val(pre) && v % 10 == ds.last() - 48) by (nonlinear_arith)
            requires
                v == digits_val(pre) * 10 + (ds.last() - 48),
                0 <= ds.last() - 48 < 10,
        ;
        assert(v >= 10) by (nonlinear_arith)
            requires
                v == digits_val(pre) * 10 + (ds.last() - 48),
                digits_val(pre) >= 1,
                ds.last() - 48 >= 0,
        ;
        assert(dec_u64(v) == dec_u64(v / 10).push((48 + v % 10) as u8));
        assert(dec_u64(v) =~= ds);
    }
}

/// The value of a prefix of a digit string never exceeds the whole string's
/// value.
pub proof fn lemma_digits_val_prefix_le(ds: Seq<u8>, k: int)
    requires
        0 <= k <= ds.len(),
        forall|i: int| 0 <= i < ds.len() ==> is_digit(#[trigger] ds[i]),
    ensures
        digits_val(ds.subrange(0, k)) <= digits_val(ds),
    decreases ds.len() - k,
{
    if k == ds.len() {
        assert(ds.subrange(0, k) =~= ds);
    } else {
        lemma_digits_val_prefix_le(ds, k + 1);
        let p1 = ds.subrange(0, k + 1);
        assert(p1.drop_last() =~= ds.subrange(0, k));
        assert(digits_val(ds.subrange(0, k)) * 10 + (p1.last() - 48) >= digits_val(
            ds.subrange(0, k),
        )) by (nonlinear_arith)
            requires
                p1.last() - 48 >= 0,
                digits_val(ds.subrange(0, k)) >= 0,
        ;
    }
}

/// Appends the canonical decimal digits of `v`.
pub fn push_u64(out: &mut Vec<u8>, v: u64)
    ensures
        final(out)@ == old(out)@ + dec_u64(v as nat),
    decreases v,
{
    if v < 10 {
        out.push(48 + v as u8);
        proof {
            assert(final(out)@ =~= old(out)@ + dec_u64(v as nat));
        }
    } else {
        push_u64(out, v / 10);
        out.push(48 + (v % 10) as u8);
        proof {
            assert(final(out)@ =~= old(out)@ + dec_u64(v as nat));
        }
    }
}

/// Appends the canonical decimal encoding of `v`, minus sign included.
pub fn push_i64(out: &mut Vec<u8>, v: i64)
    ensures
        final(out)@ == old(out)@ + enc_i64(v as int),
{
    if v < 0 {
        out.push(45);
        let mag: u64 = if v == i64::MIN {
            9223372036854775808u64
        } else {
            (-v) as u64
        };
        push_u64(out, mag);
        proof {
            assert(final(out)@ =~= old(out)@ + enc_i64(v as int));
        }
    } else {
        push_u64(out, v as u64);
    }
}

/// Reads a canonical unsigned decimal number starting at `i`. Succeeds with
/// value `v` ending at `j` exactly when the bytes from `i` to `j` are the
/// canonical digits of `v`, no digit follows, and `v` fits in 64 bits.
pub fn parse_u64(s: &Vec<u8>, i: usize) -> (r: Result<(u64, usize), LoadError>)
    requires
        i <= s@.len(),
    ensures
        r matches Ok(p) ==> i < p.1 <= s@.len() && s@.subrange(i as int, p.1 as int) == dec_u64(
            p.0 as nat,
        ) && (p.1 == s@.len() || !is_digit(s@[p.1 as int])),
        forall|v: u64, j: int|
            i + dec_u64(v as nat).len() == j && j <= s@.len() && s@.subrange(i as int, j)
                == dec_u64(v as nat) && (j == s@.len() || !is_digit(s@[j])) ==> (r matches Ok(p)
                && p.0 == v && p.1 == j),
        r matches Err(e) ==> e == LoadError::Syntax,
{
    if i == s.len() || !(48 <= s[i] && s[i] <= 57) {
        proof {
            assert forall|v: u64, j: int|
                i + dec_u64(v as nat).len() == j && j <= s@.len() && s@.subrange(i as int, j)
                    == dec_u64(v as nat) && (j == s@.len() || !is_digit(s@[j])) implies false by {
                lemma_dec_u64_props(v as nat);
                assert(dec_u64(v as nat)[0] == s@[i as int]);
            }
        }
        return Err(LoadError::Syntax);
    }
    if s[i] == 48 {
        // a canonical zero stands alone
        if i + 1 < s.len() && 48 <= s[i + 1] && s[i + 1] <= 57 {
            proof {
                assert forall|v: u64, j: int|
                    i + dec_u64(v as nat).len() == j && j <= s@.len() && s@.subrange(i as int, j)
                        == dec_u64(v as nat) && (j == s@.len() || !is_digit(s@[j])) implies false by {
                    lemma_dec_u64_props(v as nat);
                    assert(dec_u64(v as nat)[0] == s@[i as int]);
                    assert(v == 0);
                    assert(j == i + 1);
                    assert(is_digit(s@[j]));
                }
            }
            return Err(LoadError::Syntax);
        }
        proof {
            assert(s@.subrange(i as int, i + 1) =~= seq![48u8]);
            assert forall|v: u64, j: int|
                i + dec_u64(v as nat).len() == j && j <= s@.len() && s@.subrange(i as int, j)
                    == dec_u64(v as nat) && (j == s@.len() || !is_digit(s@[j])) implies v == 0 && j
                == i + 1 by {
                lemma_dec_u64_props(v as nat);
                assert(dec_u64(v as nat)[0] == s@[i as int]);
            }
        }
        return Ok((0, i + 1));
    }
    let mut acc: u128 = (s[i] - 48) as u128;
    let mut j: usize = i + 1;
    proof {
        let d0 = s@.subrange(i as int, i + 1);
        assert(d0.drop_last() =~= Seq::<u8>::empty());
        assert(d0.last() == s@[i as int]);
        assert(digits_val(Seq::<u8>::empty()) == 0);
        assert(digits_val(d0) == (s@[i as int] - 48) as nat);
    }
    while j < s.len() && 48 <= s[j] && s[j] <= 57
        invariant
            i < j <= s@.len(),
            s@[i as int] != 48,
            forall|k: int| i <= k < j ==> is_digit(#[trigger] s@[k]),
            acc == digits_val(s@.subrange(i as int, j as int)),
            acc <= u64::MAX,
        decreases s@.len() - j,
    {
        let d = s[j] - 48;
        acc = acc * 10 + d as u128;
        j = j + 1;
        proof {
            let cur = s@.subrange(i as int, j as int);
            assert(cur.drop_last() =~= s@.subrange(i as int, j - 1 as int));
            assert(cur.last() == s@[j - 1 as int]);
        }
        if acc > u64::MAX as u128 {
            proof {
                // any number whose canonical digits stand here would have this
                // prefix value below itself, hence above 64 bits as well
                assert forall|v: u64, jj: int|
                    i + dec_u64(v as nat).len() == jj && jj <= s@.len() && s@.subrange(i as int, jj)
                        == dec_u64(v as nat) && (jj == s@.len() || !is_digit(s@[jj])) implies false by {
                    lemma_dec_u64_props(v as nat);
                    lemma_val_of_dec(v as nat);
                    let ds = dec_u64(v as nat);
                    assert(jj >= j) by {
                        if jj < j {
                            assert(s@[jj] == ds[jj - i]);
                            assert(is_digit(s@[jj]));
                        }
                    }
                    assert(s@.subrange(i as int, j as int) =~= ds.subrange(0, j - i)) by {
                        assert forall|k: int| 0 <= k < j - i implies s@.subrange(
                            i as int,
                            j as int,
                        )[k] == ds.subrange(0, j - i)[k] by {
                            assert(s@.subrange(i as int, jj)[k] == ds[k]);
                        }
                    }
                    lemma_digits_val_prefix_le(ds, j - i);
                    assert(digits_val(ds.subrange(0, j - i)) == acc);
                }
            }
            return Err(LoadError::Syntax);
        }
    }
    proof {
        let ds = s@.subrange(i as int, j as int);
        lemma_dec_of_val(ds);
        assert forall|v: u64, jj: int|
            i + dec_u64(v as nat).len() == jj && jj <= s@.len() && s@.subrange(i as int, jj)
                == dec_u64(v as nat) && (jj == s@.len() || !is_digit(s@[jj])) implies acc == v && jj
            == j by {
            lemma_dec_u64_props(v as nat);
            lemma_val_of_dec(v as nat);
            let dv = dec_u64(v as nat);
            assert(jj >= j) by {
                if jj < j {
                    assert(s@[jj] == dv[jj - i]);
                    assert(is_digit(s@[jj]));
                }
            }
            assert(jj <= j) by {
                if jj > j {
                    assert(dv[j - i] == s@.subrange(i as int, jj)[j - i]);
                    assert(is_digit(s@[j as int]));
                    assert(j < s@.len());
                }
            }
            assert(dv =~= ds);
        }
    }
    Ok((acc as u64, j))
}

/// Reads a canonical signed decimal number starting at `i`. Succeeds with
/// value `v` ending at `j` exactly when the bytes from `i` to `j` are the
/// canonical encoding of `v`, no digit follows, and `v` fits in 64 bits.
pub fn parse_i64(s: &Vec<u8>, i: usize) -> (r: Result<(i64, usize), LoadError>)
    requires
        i <= s@.len(),
    ensures
        r matches Ok(p) ==> i < p.1 <= s@.len() && s@.subrange(i as int, p.1 as int) == enc_i64(
            p.0 as int,
        ) && (p.1 == s@.len() || !is_digit(s@[p.1 as int])),
        forall|v: i64, j: int|
            i + enc_i64(v as int).len() == j && j <= s@.len() && s@.subrange(i as int, j)
                == enc_i64(v as int) && (j == s@.len() || !is_digit(s@[j])) ==> (r matches Ok(p)
                && p.0 == v && p.1 == j),
        r matches Err(e) ==> e == LoadError::Syntax,
{
    if i < s.len() && s[i] == 45 {
        let ru = parse_u64(s, i + 1);
        proof {
            // under any hypothesis the sign makes the value negative, and the
            // magnitude digits stand right after the sign
            assert forall|w: i64, jj: int|
                i + enc_i64(w as int).len() == jj && jj <= s@.len() && s@.subrange(i as int, jj)
                    == enc_i64(w as int) && (jj == s@.len() || !is_digit(s@[jj])) implies w < 0
                && (-w) as u64 as nat == (-w) as nat && s@.subrange(i + 1, jj) == dec_u64(
                (-w) as nat,
            ) && i + 1 + dec_u64((-w) as nat).len() == jj by {
                lemma_enc_i64_head(w);
                assert(enc_i64(w as int)[0] == s@.subrange(i as int, jj)[0]);
                assert(w < 0);
                let dm = dec_u64((-w) as nat);
                assert(s@.subrange(i + 1, jj) =~= dm) by {
                    assert forall|k: int| 0 <= k < jj - i - 1 implies s@.subrange(i + 1, jj)[k]
                        == dm[k] by {
                        assert(s@.subrange(i as int, jj)[k + 1] == (seq![45u8] + dm)[k + 1]);
                    }
                }
            }
        }
        match ru {
            Ok((m, j)) => {
                if m == 0 || m > 9223372036854775808u64 {
                    // "-0" is not canonical; the magnitude must fit a signed value
                    proof {
                        assert forall|w: i64, jj: int|
                            i + enc_i64(w as int).len() == jj && jj <= s@.len() && s@.subrange(
                                i as int,
                                jj,
                            ) == enc_i64(w as int) && (jj == s@.len() || !is_digit(s@[jj]))
                            implies false by {
                            let mw = (-w) as u64;
                            assert(s@.subrange(i + 1, jj) == dec_u64(mw as nat));
                            assert(mw == m);
                            assert(1 <= mw as nat <= 9223372036854775808);
                        }
                    }
                    return Err(LoadError::Syntax);
                }
                let v: i64 = if m == 9223372036854775808u64 {
                    i64::MIN
                } else {
                    -(m as i64)
                };
                proof {
                    assert(s@.subrange(i as int, j as int) =~= seq![45u8] + s@.subrange(
                        i + 1,
                        j as int,
                    ));
                    assert(s@.subrange(i as int, j as int) == enc_i64(v as int));
                    assert forall|w: i64, jj: int|
                        i + enc_i64(w as int).len() == jj && jj <= s@.len() && s@.subrange(
                            i as int,
                            jj,
                        ) == enc_i64(w as int) && (jj == s@.len() || !is_digit(s@[jj])) implies w
                        == v && jj == j by {
                        let mw = (-w) as u64;
                        assert(s@.subrange(i + 1, jj) == dec_u64(mw as nat));
                        assert(mw == m && jj == j);
                    }
                }
                Ok((v, j))
            },
            Err(e) => {
                proof {
                    assert forall|w: i64, jj: int|
                        i + enc_i64(w as int).len() == jj && jj <= s@.len() && s@.subrange(
                            i as int,
                            jj,
                        ) == enc_i64(w as int) && (jj == s@.len() || !is_digit(s@[jj]))
                        implies false by {
                        let mw = (-w) as u64;
                        assert(s@.subrange(i + 1, jj) == dec_u64(mw as nat));
                    }
                }
                Err(e)
            },
        }
    } else {
        let ru = parse_u64(s, i);
        proof {
            // under any hypothesis the leading byte is a digit, so the value
            // is non-negative and its digits start right at `i`
            assert forall|w: i64, jj: int|
                i + enc_i64(w as int).len() == jj && jj <= s@.len() && s@.subrange(i as int, jj)
                    == enc_i64(w as int) && (jj == s@.len() || !is_digit(s@[jj])) implies w >= 0
                && s@.subrange(i as int, jj) == dec_u64(w as nat) && i + dec_u64(
                w as nat,
            ).len() == jj by {
                lemma_enc_i64_head(w);
                assert(enc_i64(w as int)[0] == s@.subrange(i as int, jj)[0]);
                if w < 0 {
                    assert(s@[i as int] == 45);
                    assert(i < s@.len());
                }
            }
        }
        match ru {
            Ok((m, j)) => {
                if m > i64::MAX as u64 {
                    proof {
                        assert forall|w: i64, jj: int|
                            i + enc_i64(w as int).len() == jj && jj <= s@.len() && s@.subrange(
                                i as int,
                                jj,
                            ) == enc_i64(w as int) && (jj == s@.len() || !is_digit(s@[jj]))
                            implies false by {
                            assert(s@.subrange(i as int, jj) == dec_u64(w as nat));
                            assert(w as u64 == m);
                        }
                    }
                    return Err(LoadError::Syntax);
                }
                proof {
                    assert forall|w: i64, jj: int|
                        i + enc_i64(w as int).len() == jj && jj <= s@.len() && s@.subrange(
                            i as int,
                            jj,
                        ) == enc_i64(w as int) && (jj == s@.len() || !is_digit(s@[jj])) implies w
                        == m as i64 && jj == j by {
                        assert(s@.subrange(i as int, jj) == dec_u64(w as nat));
                        assert(w as u64 == m && jj == j);
                    }
                }
                Ok((m as i64, j))
            },
            Err(e) => {
                proof {
                    assert forall|w: i64, jj: int|
                        i + enc_i64(w as int).len() == jj && jj <= s@.len() && s@.subrange(
                            i as int,
                            jj,
                        ) == enc_i64(w as int) && (jj == s@.len() || !is_digit(s@[jj]))
                        implies false by {
                        assert(s@.subrange(i as int, jj) == dec_u64(w as nat));
                    }
                }
                Err(e)
            },
        }
    }
}

/// The first byte of a canonical signed encoding: a minus sign exactly for
/// negative values, a digit otherwise.
proof fn lemma_enc_i64_head(w: i64)
    ensures
        enc_i64(w as int).len() >= 1,
        w < 0 ==> enc_i64(w as int)[0] == 45 && enc_i64(w as int) == seq![45u8] + dec_u64(
            (-w) as nat,
        ) && 1 <= (-w) as nat <= 9223372036854775808,
        w >= 0 ==> is_digit(enc_i64(w as int)[0]),
{
    if w >= 0 {
        lemma_dec_u64_props(w as nat);
    } else {
        lemma_dec_u64_props((-w) as nat);
    }
}

/// The comma-separated encodings of the entries of one z-row.
pub open spec fn enc_row_items(s: Seq<usize>) -> Seq<u8>
    decreases s.len(),
{
    if s.len() == 0 {
        Seq::empty()
    } else if s.len() == 1 {
        dec_u64(s[0] as nat)
    } else {
        enc_row_items(s.drop_last()) + seq![44u8] + dec_u64(s.last() as nat)
    }
}

/// One z-row as text: its entries between brackets.
pub open spec fn enc_row(s: Seq<usize>) -> Seq<u8> {
    seq![91u8] + enc_row_items(s) + seq![93u8]
}

/// A non-empty item list reads as its first item, then a comma and the rest.
pub proof fn lemma_enc_row_items_head(s: Seq<usize>)
    requires
        s.len() >= 1,
    ensures
        s.len() == 1 ==> enc_row_items(s) == dec_u64(s[0] as nat),
        s.len() > 1 ==> enc_row_items(s) == dec_u64(s[0] as nat) + seq![44u8] + enc_row_items(
            s.subrange(1, s.len() as int),
        ),
    decreases s.len(),
{
    if s.len() > 1 {
        let t = s.drop_last();
        lemma_enc_row_items_head(t);
        if s.len() == 2 {
            assert(t =~= s.subrange(0, 1));
            assert(s.subrange(1, s.len() as int) =~= seq![s[1]]);
            assert(enc_row_items(s.subrange(1, s.len() as int)) == dec_u64(s[1] as nat));
            assert(enc_row_items(s) =~= dec_u64(s[0] as nat) + seq![44u8] + enc_row_items(
                s.subrange(1, s.len() as int),
            ));
        } else {
            let rest = s.subrange(1, s.len() as int);
            assert(t.subrange(1, t.len() as int) =~= rest.drop_last());
            assert(rest.last() == s.last());
            assert(enc_row_items(rest) == enc_row_items(rest.drop_last()) + seq![44u8] + dec_u64(
                rest.last() as nat,
            ));
            assert(enc_row_items(s) =~= dec_u64(s[0] as nat) + seq![44u8] + enc_row_items(rest));
        }
    }
}

/// Reads one bracketed z-row starting at `i`. Succeeds with row `v` ending at
/// `j` exactly when the bytes from `i` to `j` are the canonical encoding of
/// `v` and every entry fits the platform's word.
pub fn parse_row(s: &Vec<u8>, i: usize) -> (r: Result<(Vec<usize>, usize), LoadError>)
    requires
        i <= s@.len(),
    ensures
        r matches Ok(p) ==> i < p.1 <= s@.len() && s@.subrange(i as int, p.1 as int) == enc_row(
            p.0@,
        ),
        forall|vs: Seq<usize>, j: int|
            i + enc_row(vs).len() == j && j <= s@.len() && s@.subrange(i as int, j) == enc_row(vs)
                ==> (r matches Ok(p) && p.0@ == vs && p.1 == j),
        r matches Err(e) ==> e == LoadError::Syntax,
{
    if i == s.len() || s[i] != 91 {
        proof {
            assert forall|vs: Seq<usize>, j: int|
                i + enc_row(vs).len() == j && j <= s@.len() && s@.subrange(i as int, j) == enc_row(
                    vs,
                ) implies false by {
                assert(enc_row(vs)[0] == 91);
                assert(s@.subrange(i as int, j)[0] == s@[i as int]);
            }
        }
        return Err(LoadError::Syntax);
    }
    let mut j: usize = i + 1;
    if j < s.len() && s[j] == 93 {
        proof {
            assert(s@.subrange(i as int, j + 1) =~= enc_row(Seq::<usize>::empty()));
            assert forall|vs: Seq<usize>, jv: int|
                i + enc_row(vs).len() == jv && jv <= s@.len() && s@.subrange(i as int, jv)
                    == enc_row(vs) implies vs =~= Seq::<usize>::empty() && jv == j + 1 by {
                if vs.len() > 0 {
                    lemma_enc_row_items_head(vs);
                    lemma_dec_u64_props(vs[0] as nat);
                    assert(enc_row(vs)[1] == dec_u64(vs[0] as nat)[0]);
                    assert(s@.subrange(i as int, jv)[1] == s@[j as int]);
                }
            }
        }
        return Ok((Vec::new(), j + 1));
    }
    proof {
        assert forall|vs: Seq<usize>, jv: int|
            i + enc_row(vs).len() == jv && jv <= s@.len() && s@.subrange(i as int, jv) == enc_row(
                vs,
            ) implies vs.len() > 0 && Seq::<usize>::empty() == vs.subrange(0, 0) && j as int <= jv
            && s@.subrange(j as int, jv) == enc_row_items(vs.subrange(0, vs.len() as int))
            + seq![93u8] by {
            if vs.len() == 0 {
                assert(enc_row(vs)[1] == 93);
                assert(s@.subrange(i as int, jv)[1] == s@[j as int]);
                assert(jv >= i + 2);
                assert(j < s@.len());
            }
            assert(Seq::<usize>::empty() =~= vs.subrange(0, 0));
            assert(vs.subrange(0, vs.len() as int) =~= vs);
            let whole = enc_row_items(vs) + seq![93u8];
            assert(jv - i == 2 + enc_row_items(vs).len());
            assert forall|m: int| 0 <= m < whole.len() implies s@.subrange(j as int, jv)[m]
                == whole[m] by {
                assert(s@.subrange(i as int, jv)[m + 1] == enc_row(vs)[m + 1]);
            }
            assert(s@.subrange(j as int, jv) =~= whole);
        }
        assert(s@.subrange(i + 1, j as int) =~= Seq::<u8>::empty());
    }
    let mut items: Vec<usize> = Vec::new();
    loop
        invariant
            i < j <= s@.len(),
            i + 1 <= j,
            s@[i as int] == 91,
            s@.subrange(i + 1, j as int) == enc_row_items(items@) + (if items@.len() > 0 {
                seq![44u8]
            } else {
                Seq::<u8>::empty()
            }),
            forall|vs: Seq<usize>, jv: int|
                i + enc_row(vs).len() == jv && jv <= s@.len() && s@.subrange(i as int, jv)
                    == enc_row(vs) ==> {
                    let k = items@.len() as int;
                    k < vs.len() && items@ == vs.subrange(0, k) && j as int <= jv && s@.subrange(
                        j as int,
                        jv,
                    ) == enc_row_items(vs.subrange(k, vs.len() as int)) + seq![93u8]
                },
        decreases s@.len() - j,
    {
        let ghost items0 = items@;
        let ghost j0 = j as int;
        proof {
            // under any hypothesis, the canonical digits of the next entry
            // stand at `j`, followed by a comma or the closing bracket
            assert forall|vs: Seq<usize>, jv: int|
                i + enc_row(vs).len() == jv && jv <= s@.len() && s@.subrange(i as int, jv)
                    == enc_row(vs) implies {
                let k = items0.len() as int;
                let d = dec_u64(vs[k] as nat);
                &&& j0 + d.len() <= s@.len()
                &&& s@.subrange(j0, j0 + d.len()) == d
                &&& j0 + d.len() < s@.len()
                &&& !is_digit(s@[j0 + d.len()])
                &&& (k + 1 < vs.len() ==> s@[j0 + d.len()] == 44 && j0 + d.len() + 1 <= jv
                    && s@.subrange(j0 + d.len() + 1, jv) == enc_row_items(
                    vs.subrange(k + 1, vs.len() as int),
                ) + seq![93u8])
                &&& (k + 1 == vs.len() ==> s@[j0 + d.len()] == 93 && jv == j0 + d.len() + 1)
            } by {
                let k = items0.len() as int;
                let tail = vs.subrange(k, vs.len() as int);
                let d = dec_u64(vs[k] as nat);
                lemma_enc_row_items_head(tail);
                lemma_dec_u64_props(vs[k] as nat);
                assert(tail[0] == vs[k]);
                let rem = s@.subrange(j0, jv);
                assert(rem == enc_row_items(tail) + seq![93u8]);
                if tail.len() == 1 {
                    assert(rem =~= d + seq![93u8]);
                } else {
                    let rest = enc_row_items(tail.subrange(1, tail.len() as int));
                    assert(rem =~= d + seq![44u8] + rest + seq![93u8]);
                }
                assert(rem.len() == jv - j0);
                assert forall|m: int| 0 <= m <= d.len() implies s@[j0 + m] == rem[m] by {
                    assert(rem[m] == s@.subrange(j0, jv)[m]);
                }
                assert forall|m: int| 0 <= m < d.len() implies s@.subrange(j0, j0 + d.len())[m]
                    == d[m] by {
                    assert(s@[j0 + m] == rem[m]);
                }
                assert(s@.subrange(j0, j0 + d.len()) =~= d);
                assert(s@[j0 + d.len()] == rem[d.len() as int]);
                if k + 1 < vs.len() {
                    let rest = enc_row_items(tail.subrange(1, tail.len() as int));
                    assert(tail.subrange(1, tail.len() as int) =~= vs.subrange(
                        k + 1,
                        vs.len() as int,
                    ));
                    let suffix = rest + seq![93u8];
                    assert(rem =~= d + seq![44u8] + suffix);
                    assert forall|m: int| 0 <= m < suffix.len() implies s@.subrange(
                        j0 + d.len() + 1,
                        jv,
                    )[m] == suffix[m] by {
                        assert(s@.subrange(j0, jv)[d.len() + 1 + m] == suffix[m]);
                        assert(s@.subrange(j0 + d.len() + 1, jv)[m] == s@[j0 + d.len() + 1 + m]);
                        assert(s@.subrange(j0, jv)[d.len() + 1 + m] == s@[j0 + d.len() + 1 + m]);
                    }
                    assert(s@.subrange(j0 + d.len() + 1, jv) =~= suffix);
                } else {
                    assert(rem =~= d + seq![93u8]);
                    assert(jv == j0 + d.len() + 1);
                }
            }
        }
        let pu = parse_u64(s, j);
        match pu {
            Ok((val, j2)) => {
                if val > usize::MAX as u64 {
                    return Err(LoadError::Syntax);
                }
                items.push(val as usize);
                proof {
                    assert(items@ == items0.push(val as usize));
                    assert(items@.drop_last() =~= items0);
                    if items0.len() > 0 {
                        assert(enc_row_items(items@) == enc_row_items(items0) + seq![44u8]
                            + dec_u64(val as nat));
                    } else {
                        assert(enc_row_items(items@) == dec_u64(val as nat));
                    }
                    assert(s@.subrange(i + 1, j2 as int) =~= s@.subrange(i + 1, j0) + s@.subrange(
                        j0,
                        j2 as int,
                    ));
                }
                if j2 < s.len() && s[j2] == 44 {
                    j = j2 + 1;
                    proof {
                        assert(s@.subrange(i + 1, j as int) =~= enc_row_items(items@)
                            + seq![44u8]);
                        assert forall|vs: Seq<usize>, jv: int|
                            i + enc_row(vs).len() == jv && jv <= s@.len() && s@.subrange(
                                i as int,
                                jv,
                            ) == enc_row(vs) implies {
                            let k = items@.len() as int;
                            k < vs.len() && items@ == vs.subrange(0, k) && j as int <= jv
                                && s@.subrange(j as int, jv) == enc_row_items(
                                vs.subrange(k, vs.len() as int),
                            ) + seq![93u8]
                        } by {
                            let k0 = items0.len() as int;
                            let d = dec_u64(vs[k0] as nat);
                            assert(val == vs[k0] && j2 == j0 + d.len());
                            assert(s@[j2 as int] != 93);
                            assert(k0 + 1 < vs.len());
                            assert(items@ =~= vs.subrange(0, k0 + 1));
                        }
                    }
                } else if j2 < s.len() && s[j2] == 93 {
                    proof {
                        assert(s@.subrange(i as int, j2 + 1) =~= seq![91u8] + s@.subrange(
                            i + 1,
                            j2 as int,
                        ) + seq![93u8]);
                        assert(s@.subrange(i as int, j2 + 1) == enc_row(items@));
                        assert forall|vs: Seq<usize>, jv: int|
                            i + enc_row(vs).len() == jv && jv <= s@.len() && s@.subrange(
                                i as int,
                                jv,
                            ) == enc_row(vs) implies vs == items@ && jv == j2 + 1 by {
                            let k0 = items0.len() as int;
                            let d = dec_u64(vs[k0] as nat);
                            assert(val == vs[k0] && j2 == j0 + d.len());
                            assert(s@[j2 as int] != 44);
                            assert(k0 + 1 == vs.len());
                            assert(items@ =~= vs);
                        }
                    }
                    return Ok((items, j2 + 1));
                } else {
                    return Err(LoadError::Syntax);
                }
            },
            Err(e) => {
                return Err(e);
            },
        }
    }
}

/// The mathematical view of a parsed y-z plane.
pub open spec fn plane_seq(v: Vec<Vec<usize>>) -> Seq<Seq<usize>> {
    v@.map_values(|r: Vec<usize>| r@)
}

/// The mathematical view of a parsed orientation layer.
pub open spec fn cube_seq(v: Vec<Vec<Vec<usize>>>) -> Seq<Seq<Seq<usize>>> {
    v@.map_values(|p: Vec<Vec<usize>>| plane_seq(p))
}

/// The mathematical view of a parsed grid.
pub open spec fn l4_seq(v: Vec<Vec<Vec<Vec<usize>>>>) -> Seq<Seq<Seq<Seq<usize>>>> {
    v@.map_values(|c: Vec<Vec<Vec<usize>>>| cube_seq(c))
}

/// The comma-separated encodings of the items of one y-z plane.
pub open spec fn enc_plane_items(s: Seq<Seq<usize>>) -> Seq<u8>
    decreases s.len(),
{
    if s.len() == 0 {
        Seq::empty()
    } else if s.len() == 1 {
        enc_row(s[0])
    } else {
        enc_plane_items(s.drop_last()) + seq![44u8] + enc_row(s.last())
    }
}

/// One y-z plane as text: its items between brackets.
pub open spec fn enc_plane(s: Seq<Seq<usize>>) -> Seq<u8> {
    seq![91u8] + enc_plane_items(s) + seq![93u8]
}

/// A non-empty item list reads as its first item, then a comma and the rest.
pub proof fn lemma_enc_plane_items_head(s: Seq<Seq<usize>>)
    requires
        s.len() >= 1,
    ensures
        s.len() == 1 ==> enc_plane_items(s) == enc_row(s[0]),
        s.len() > 1 ==> enc_plane_items(s) == enc_row(s[0]) + seq![44u8] + enc_plane_items(
            s.subrange(1, s.len() as int),
        ),
    decreases s.len(),
{
    if s.len() > 1 {
        let t = s.drop_last();
        lemma_enc_plane_items_head(t);
        if s.len() == 2 {
            assert(t =~= s.subrange(0, 1));
            assert(s.subrange(1, s.len() as int) =~= seq![s[1]]);
            assert(enc_plane_items(s.subrange(1, s.len() as int)) == enc_row(s[1]));
            assert(enc_plane_items(s) =~= enc_row(s[0]) + seq![44u8] + enc_plane_items(
                s.subrange(1, s.len() as int),
            ));
        } else {
            let rest = s.subrange(1, s.len() as int);
            assert(t.subrange(1, t.len() as int) =~= rest.drop_last());
            assert(rest.last() == s.last());
            assert(enc_plane_items(rest) == enc_plane_items(rest.drop_last()) + seq![44u8] + enc_row(
                rest.last(),
            ));
            assert(enc_plane_items(s) =~= enc_row(s[0]) + seq![44u8] + enc_plane_items(rest));
        }
    }
}

/// Reads one bracketed y-z plane starting at `i`. Succeeds with value `v` ending
/// at `j` exactly when the bytes from `i` to `j` are the canonical encoding
/// of `v`.
#[verifier::rlimit(100)]
pub fn parse_plane(s: &Vec<u8>, i: usize) -> (r: Result<(Vec<Vec<usize>>, usize), LoadError>)
    requires
        i <= s@.len(),
    ensures
        r matches Ok(p) ==> i < p.1 <= s@.len() && s@.subrange(i as int, p.1 as int) == enc_plane(
            plane_seq(p.0),
        ),
        forall|vs: Seq<Seq<usize>>, j: int|
            i + enc_plane(vs).len() == j && j <= s@.len() && s@.subrange(i as int, j) == enc_plane(vs)
                ==> (r matches Ok(p) && plane_seq(p.0) == vs && p.1 == j),
        r matches Err(e) ==> e == LoadError::Syntax,
{
    if i == s.len() || s[i] != 91 {
        proof {
            assert forall|vs: Seq<Seq<usize>>, j: int|
                i + enc_plane(vs).len() == j && j <= s@.len() && s@.subrange(i as int, j) == enc_plane(
                    vs,
                ) implies false by {
                assert(enc_plane(vs)[0] == 91);
                assert(s@.subrange(i as int, j)[0] == s@[i as int]);
            }
        }
        return Err(LoadError::Syntax);
    }
    let mut j: usize = i + 1;
    if j < s.len() && s[j] == 93 {
        let empty_items: Vec<Vec<usize>> = Vec::new();
        proof {
            assert(plane_seq(empty_items) =~= Seq::<Seq<usize>>::empty());
            assert(s@.subrange(i as int, j + 1) =~= enc_plane(Seq::<Seq<usize>>::empty()));
            assert forall|vs: Seq<Seq<usize>>, jv: int|
                i + enc_plane(vs).len() == jv && jv <= s@.len() && s@.subrange(i as int, jv)
                    == enc_plane(vs) implies vs =~= Seq::<Seq<usize>>::empty() && jv == j + 1 by {
                if vs.len() > 0 {
                    lemma_enc_plane_items_head(vs);
                    assert(enc_plane(vs)[1] == enc_row(vs[0])[0]);
                    assert(s@.subrange(i as int, jv)[1] == s@[j as int]);
                }
            }
        }
        return Ok((empty_items, j + 1));
    }
    proof {
        assert forall|vs: Seq<Seq<usize>>, jv: int|
            i + enc_plane(vs).len() == jv && jv <= s@.len() && s@.subrange(i as int, jv) == enc_plane(
                vs,
            ) implies vs.len() > 0 && Seq::<Seq<usize>>::empty() == vs.subrange(0, 0) && j as int <= jv
            && s@.subrange(j as int, jv) == enc_plane_items(vs.subrange(0, vs.len() as int))
            + seq![93u8] by {
            if vs.len() == 0 {
                assert(enc_plane(vs)[1] == 93);
                assert(s@.subrange(i as int, jv)[1] == s@[j as int]);
                assert(jv >= i + 2);
                assert(j < s@.len());
            }
            assert(Seq::<Seq<usize>>::empty() =~= vs.subrange(0, 0));
            assert(vs.subrange(0, vs.len() as int) =~= vs);
            let whole = enc_plane_items(vs) + seq![93u8];
            assert(jv - i == 2 + enc_plane_items(vs).len());
            assert forall|m: int| 0 <= m < whole.len() implies s@.subrange(j as int, jv)[m]
                == whole[m] by {
                assert(s@.subrange(i as int, jv)[m + 1] == enc_plane(vs)[m + 1]);
            }
            assert(s@.subrange(j as int, jv) =~= whole);
        }
        assert(s@.subrange(i + 1, j as int) =~= Seq::<u8>::empty());
    }
    let mut items: Vec<Vec<usize>> = Vec::new();
    proof {
        assert(plane_seq(items) =~= Seq::<Seq<usize>>::empty());
    }
    loop
        invariant
            i < j <= s@.len(),
            i + 1 <= j,
            s@[i as int] == 91,
            s@.subrange(i + 1, j as int) == enc_plane_items(plane_seq(items)) + (
            if plane_seq(items).len() > 0 {
                seq![44u8]
            } else {
                Seq::<u8>::empty()
            }),
            forall|vs: Seq<Seq<usize>>, jv: int|
                i + enc_plane(vs).len() == jv && jv <= s@.len() && s@.subrange(i as int, jv)
                    == enc_plane(vs) ==> {
                    let k = plane_seq(items).len() as int;
                    k < vs.len() && plane_seq(items) == vs.subrange(0, k) && j as int <= jv
                        && s@.subrange(j as int, jv) == enc_plane_items(vs.subrange(k, vs.len() as int))
                        + seq![93u8]
                },
        decreases s@.len() - j,
    {
        let ghost items0 = plane_seq(items);
        let ghost j0 = j as int;
        proof {
            // under any hypothesis, the encoding of the next item stands at
            // `j`, followed by a comma or the closing bracket
            assert forall|vs: Seq<Seq<usize>>, jv: int|
                i + enc_plane(vs).len() == jv && jv <= s@.len() && s@.subrange(i as int, jv)
                    == enc_plane(vs) implies {
                let k = items0.len() as int;
                let d = enc_row(vs[k]);
                &&& j0 + d.len() <= s@.len()
                &&& s@.subrange(j0, j0 + d.len()) == d
                &&& j0 + d.len() < s@.len()
                &&& (k + 1 < vs.len() ==> s@[j0 + d.len()] == 44 && j0 + d.len() + 1 <= jv
                    && s@.subrange(j0 + d.len() + 1, jv) == enc_plane_items(
                    vs.subrange(k + 1, vs.len() as int),
                ) + seq![93u8])
                &&& (k + 1 == vs.len() ==> s@[j0 + d.len()] == 93 && jv == j0 + d.len() + 1)
            } by {
                let k = items0.len() as int;
                let tail = vs.subrange(k, vs.len() as int);
                let d = enc_row(vs[k]);
                lemma_enc_plane_items_head(tail);
                assert(tail[0] == vs[k]);
                let rem = s@.subrange(j0, jv);
                assert(rem == enc_plane_items(tail) + seq![93u8]);
                if tail.len() == 1 {
                    assert(rem =~= d + seq![93u8]);
                } else {
                    let rest = enc_plane_items(tail.subrange(1, tail.len() as int));
                    assert(rem =~= d + seq![44u8] + rest + seq![93u8]);
                }
                assert(rem.len() == jv - j0);
                assert forall|m: int| 0 <= m <= d.len() implies s@[j0 + m] == rem[m] by {
                    assert(rem[m] == s@.subrange(j0, jv)[m]);
                }
                assert forall|m: int| 0 <= m < d.len() implies s@.subrange(j0, j0 + d.len())[m]
                    == d[m] by {
                    assert(s@[j0 + m] == rem[m]);
                }
                assert(s@.subrange(j0, j0 + d.len()) =~= d);
                assert(s@[j0 + d.len()] == rem[d.len() as int]);
                if k + 1 < vs.len() {
                    let rest = enc_plane_items(tail.subrange(1, tail.len() as int));
                    assert(tail.subrange(1, tail.len() as int) =~= vs.subrange(
                        k + 1,
                        vs.len() as int,
                    ));
                    let suffix = rest + seq![93u8];
                    assert(rem =~= d + seq![44u8] + suffix);
                    assert forall|m: int| 0 <= m < suffix.len() implies s@.subrange(
                        j0 + d.len() + 1,
                        jv,
                    )[m] == suffix[m] by {
                        assert(s@.subrange(j0, jv)[d.len() + 1 + m] == suffix[m]);
                        assert(s@.subrange(j0 + d.len() + 1, jv)[m] == s@[j0 + d.len() + 1 + m]);
                        assert(s@.subrange(j0, jv)[d.len() + 1 + m] == s@[j0 + d.len() + 1 + m]);
                    }
                    assert(s@.subrange(j0 + d.len() + 1, jv) =~= suffix);
                } else {
                    assert(rem =~= d + seq![93u8]);
                    assert(jv == j0 + d.len() + 1);
                }
            }
        }
        let pu = parse_row(s, j);
        match pu {
            Ok((val, j2)) => {
                items.push(val);
                proof {
                    assert(plane_seq(items) =~= items0.push(val@));
                    assert(plane_seq(items).drop_last() =~= items0);
                    if items0.len() > 0 {
                        assert(enc_plane_items(plane_seq(items)) == enc_plane_items(items0) + seq![44u8] + enc_row(
                            val@,
                        ));
                    } else {
                        assert(enc_plane_items(plane_seq(items)) == enc_row(val@));
                    }
                    assert(s@.subrange(i + 1, j2 as int) =~= s@.subrange(i + 1, j0) + s@.subrange(
                        j0,
                        j2 as int,
                    ));
                }
                if j2 < s.len() && s[j2] == 44 {
                    j = j2 + 1;
                    proof {
                        assert(s@.subrange(i + 1, j as int) =~= enc_plane_items(plane_seq(items))
                            + seq![44u8]);
                        assert forall|vs: Seq<Seq<usize>>, jv: int|
                            i + enc_plane(vs).len() == jv && jv <= s@.len() && s@.subrange(
                                i as int,
                                jv,
                            ) == enc_plane(vs) implies {
                            let k = plane_seq(items).len() as int;
                            k < vs.len() && plane_seq(items) == vs.subrange(0, k) && j as int <= jv
                                && s@.subrange(j as int, jv) == enc_plane_items(
                                vs.subrange(k, vs.len() as int),
                            ) + seq![93u8]
                        } by {
                            let k0 = items0.len() as int;
                            let d = enc_row(vs[k0]);
                            assert(val@ == vs[k0] && j2 == j0 + d.len());
                            assert(s@[j2 as int] != 93);
                            assert(k0 + 1 < vs.len());
                            assert(plane_seq(items) =~= vs.subrange(0, k0 + 1));
                        }
                    }
                } else if j2 < s.len() && s[j2] == 93 {
                    proof {
                        assert(s@.subrange(i as int, j2 + 1) =~= seq![91u8] + s@.subrange(
                            i + 1,
                            j2 as int,
                        ) + seq![93u8]);
                        assert(s@.subrange(i as int, j2 + 1) == enc_plane(plane_seq(items)));
                        assert forall|vs: Seq<Seq<usize>>, jv: int|
                            i + enc_plane(vs).len() == jv && jv <= s@.len() && s@.subrange(
                                i as int,
                                jv,
                            ) == enc_plane(vs) implies vs == plane_seq(items) && jv == j2 + 1 by {
                            let k0 = items0.len() as int;
                            let d = enc_row(vs[k0]);
                            assert(val@ == vs[k0] && j2 == j0 + d.len());
                            assert(s@[j2 as int] != 44);
                            assert(k0 + 1 == vs.len());
                            assert(plane_seq(items) =~= vs);
                        }
                    }
                    return Ok((items, j2 + 1));
                } else {
                    return Err(LoadError::Syntax);
                }
            },
            Err(e) => {
                return Err(e);
            },
        }
    }
}

/// The comma-separated encodings of the items of one orientation layer.
pub open spec fn enc_cube_items(s: Seq<Seq<Seq<usize>>>) -> Seq<u8>
    decreases s.len(),
{
    if s.len() == 0 {
        Seq::empty()
    } else if s.len() == 1 {
        enc_plane(s[0])
    } else {
        enc_cube_items(s.drop_last()) + seq![44u8] + enc_plane(s.last())
    }
}

/// One orientation layer as text: its items between brackets.
pub open spec fn enc_cube(s: Seq<Seq<Seq<usize>>>) -> Seq<u8> {
    seq![91u8] + enc_cube_items(s) + seq![93u8]
}

/// A non-empty item list reads as its first item, then a comma and the rest.
pub proof fn lemma_enc_cube_items_head(s: Seq<Seq<Seq<usize>>>)
    requires
        s.len() >= 1,
    ensures
        s.len() == 1 ==> enc_cube_items(s) == enc_plane(s[0]),
        s.len() > 1 ==> enc_cube_items(s) == enc_plane(s[0]) + seq![44u8] + enc_cube_items(
            s.subrange(1, s.len() as int),
        ),
    decreases s.len(),
{
    if s.len() > 1 {
        let t = s.drop_last();
        lemma_enc_cube_items_head(t);
        if s.len() == 2 {
            assert(t =~= s.subrange(0, 1));
            assert(s.subrange(1, s.len() as int) =~= seq![s[1]]);
            assert(enc_cube_items(s.subrange(1, s.len() as int)) == enc_plane(s[1]));
            assert(enc_cube_items(s) =~= enc_plane(s[0]) + seq![44u8] + enc_cube_items(
                s.subrange(1, s.len() as int),
            ));
        } else {
            let rest = s.subrange(1, s.len() as int);
            assert(t.subrange(1, t.len() as int) =~= rest.drop_last());
            assert(rest.last() == s.last());
            assert(enc_cube_items(rest) == enc_cube_items(rest.drop_last()) + seq![44u8] + enc_plane(
                rest.last(),
            ));
            assert(enc_cube_items(s) =~= enc_plane(s[0]) + seq![44u8] + enc_cube_items(rest));
        }
    }
}

/// Reads one bracketed orientation layer starting at `i`. Succeeds with value `v` ending
/// at `j` exactly when the bytes from `i` to `j` are the canonical encoding
/// of `v`.
#[verifier::rlimit(100)]
pub fn parse_cube(s: &Vec<u8>, i: usize) -> (r: Result<(Vec<Vec<Vec<usize>>>, usize), LoadError>)
    requires
        i <= s@.len(),
    ensures
        r matches Ok(p) ==> i < p.1 <= s@.len() && s@.subrange(i as int, p.1 as int) == enc_cube(
            cube_seq(p.0),
        ),
        forall|vs: Seq<Seq<Seq<usize>>>, j: int|
            i + enc_cube(vs).len() == j && j <= s@.len() && s@.subrange(i as int, j) == enc_cube(vs)
                ==> (r matches Ok(p) && cube_seq(p.0) == vs && p.1 == j),
        r matches Err(e) ==> e == LoadError::Syntax,
{
    if i == s.len() || s[i] != 91 {
        proof {
            assert forall|vs: Seq<Seq<Seq<usize>>>, j: int|
                i + enc_cube(vs).len() == j && j <= s@.len() && s@.subrange(i as int, j) == enc_cube(
                    vs,
                ) implies false by {
                assert(enc_cube(vs)[0] == 91);
                assert(s@.subrange(i as int, j)[0] == s@[i as int]);
            }
        }
        return Err(LoadError::Syntax);
    }
    let mut j: usize = i + 1;
    if j < s.len() && s[j] == 93 {
        let empty_items: Vec<Vec<Vec<usize>>> = Vec::new();
        proof {
            assert(cube_seq(empty_items) =~= Seq::<Seq<Seq<usize>>>::empty());
            assert(s@.subrange(i as int, j + 1) =~= enc_cube(Seq::<Seq<Seq<usize>>>::empty()));
            assert forall|vs: Seq<Seq<Seq<usize>>>, jv: int|
                i + enc_cube(vs).len() == jv && jv <= s@.len() && s@.subrange(i as int, jv)
                    == enc_cube(vs) implies vs =~= Seq::<Seq<Seq<usize>>>::empty() && jv == j + 1 by {
                if vs.len() > 0 {
                    lemma_enc_cube_items_head(vs);
                    assert(enc_cube(vs)[1] == enc_plane(vs[0])[0]);
                    assert(s@.subrange(i as int, jv)[1] == s@[j as int]);
                }
            }
        }
        return Ok((empty_items, j + 1));
    }
    proof {
        assert forall|vs: Seq<Seq<Seq<usize>>>, jv: int|
            i + enc_cube(vs).len() == jv && jv <= s@.len() && s@.subrange(i as int, jv) == enc_cube(
                vs,
            ) implies vs.len() > 0 && Seq::<Seq<Seq<usize>>>::empty() == vs.subrange(0, 0) && j as int <= jv
            && s@.subrange(j as int, jv) == enc_cube_items(vs.subrange(0, vs.len() as int))
            + seq![93u8] by {
            if vs.len() == 0 {
                assert(enc_cube(vs)[1] == 93);
                assert(s@.subrange(i as int, jv)[1] == s@[j as int]);
                assert(jv >= i + 2);
                assert(j < s@.len());
            }
            assert(Seq::<Seq<Seq<usize>>>::empty() =~= vs.subrange(0, 0));
            assert(vs.subrange(0, vs.len() as int) =~= vs);
            let whole = enc_cube_items(vs) + seq![93u8];
            assert(jv - i == 2 + enc_cube_items(vs).len());
            assert forall|m: int| 0 <= m < whole.len() implies s@.subrange(j as int, jv)[m]
                == whole[m] by {
                assert(s@.subrange(i as int, jv)[m + 1] == enc_cube(vs)[m + 1]);
            }
            assert(s@.subrange(j as int, jv) =~= whole);
        }
        assert(s@.subrange(i + 1, j as int) =~= Seq::<u8>::empty());
    }
    let mut items: Vec<Vec<Vec<usize>>> = Vec::new();
    proof {
        assert(cube_seq(items) =~= Seq::<Seq<Seq<usize>>>::empty());
    }
    loop
        invariant
            i < j <= s@.len(),
            i + 1 <= j,
            s@[i as int] == 91,
            s@.subrange(i + 1, j as int) == enc_cube_items(cube_seq(items)) + (
            if cube_seq(items).len() > 0 {
                seq![44u8]
            } else {
                Seq::<u8>::empty()
            }),
            forall|vs: Seq<Seq<Seq<usize>>>, jv: int|
                i + enc_cube(vs).len() == jv && jv <= s@.len() && s@.subrange(i as int, jv)
                    == enc_cube(vs) ==> {
                    let k = cube_seq(items).len() as int;
                    k < vs.len() && cube_seq(items) == vs.subrange(0, k) && j as int <= jv
                        && s@.subrange(j as int, jv) == enc_cube_items(vs.subrange(k, vs.len() as int))
                        + seq![93u8]
                },
        decreases s@.len() - j,
    {
        let ghost items0 = cube_seq(items);
        let ghost j0 = j as int;
        proof {
            // under any hypothesis, the encoding of the next item stands at
            // `j`, followed by a comma or the closing bracket
            assert forall|vs: Seq<Seq<Seq<usize>>>, jv: int|
                i + enc_cube(vs).len() == jv && jv <= s@.len() && s@.subrange(i as int, jv)
                    == enc_cube(vs) implies {
                let k = items0.len() as int;
                let d = enc_plane(vs[k]);
                &&& j0 + d.len() <= s@.len()
                &&& s@.subrange(j0, j0 + d.len()) == d
                &&& j0 + d.len() < s@.len()
                &&& (k + 1 < vs.len() ==> s@[j0 + d.len()] == 44 && j0 + d.len() + 1 <= jv
                    && s@.subrange(j0 + d.len() + 1, jv) == enc_cube_items(
                    vs.subrange(k + 1, vs.len() as int),
                ) + seq![93u8])
                &&& (k + 1 == vs.len() ==> s@[j0 + d.len()] == 93 && jv == j0 + d.len() + 1)
            } by {
                let k = items0.len() as int;
                let tail = vs.subrange(k, vs.len() as int);
                let d = enc_plane(vs[k]);
                lemma_enc_cube_items_head(tail);
                assert(tail[0] == vs[k]);
                let rem = s@.subrange(j0, jv);
                assert(rem == enc_cube_items(tail) + seq![93u8]);
                if tail.len() == 1 {
                    assert(rem =~= d + seq![93u8]);
                } else {
                    let rest = enc_cube_items(tail.subrange(1, tail.len() as int));
                    assert(rem =~= d + seq![44u8] + rest + seq![93u8]);
                }
                assert(rem.len() == jv - j0);
                assert forall|m: int| 0 <= m <= d.len() implies s@[j0 + m] == rem[m] by {
                    assert(rem[m] == s@.subrange(j0, jv)[m]);
                }
                assert forall|m: int| 0 <= m < d.len() implies s@.subrange(j0, j0 + d.len())[m]
                    == d[m] by {
                    assert(s@[j0 + m] == rem[m]);
                }
                assert(s@.subrange(j0, j0 + d.len()) =~= d);
                assert(s@[j0 + d.len()] == rem[d.len() as int]);
                if k + 1 < vs.len() {
                    let rest = enc_cube_items(tail.subrange(1, tail.len() as int));
                    assert(tail.subrange(1, tail.len() as int) =~= vs.subrange(
                        k + 1,
                        vs.len() as int,
                    ));
                    let suffix = rest + seq![93u8];
                    assert(rem =~= d + seq![44u8] + suffix);
                    assert forall|m: int| 0 <= m < suffix.len() implies s@.subrange(
                        j0 + d.len() + 1,
                        jv,
                    )[m] == suffix[m] by {
                        assert(s@.subrange(j0, jv)[d.len() + 1 + m] == suffix[m]);
                        assert(s@.subrange(j0 + d.len() + 1, jv)[m] == s@[j0 + d.len() + 1 + m]);
                        assert(s@.subrange(j0, jv)[d.len() + 1 + m] == s@[j0 + d.len() + 1 + m]);
                    }
                    assert(s@.subrange(j0 + d.len() + 1, jv) =~= suffix);
                } else {
                    assert(rem =~= d + seq![93u8]);
                    assert(jv == j0 + d.len() + 1);
                }
            }
        }
        let pu = parse_plane(s, j);
        match pu {
            Ok((val, j2)) => {
                items.push(val);
                proof {
                    assert(cube_seq(items) =~= items0.push(plane_seq(val)));
                    assert(cube_seq(items).drop_last() =~= items0);
                    if items0.len() > 0 {
                        assert(enc_cube_items(cube_seq(items)) == enc_cube_items(items0) + seq![44u8] + enc_plane(
                            plane_seq(val),
                        ));
                    } else {
                        assert(enc_cube_items(cube_seq(items)) == enc_plane(plane_seq(val)));
                    }
                    assert(s@.subrange(i + 1, j2 as int) =~= s@.subrange(i + 1, j0) + s@.subrange(
                        j0,
                        j2 as int,
                    ));
                }
                if j2 < s.len() && s[j2] == 44 {
                    j = j2 + 1;
                    proof {
                        assert(s@.subrange(i + 1, j as int) =~= enc_cube_items(cube_seq(items))
                            + seq![44u8]);
                        assert forall|vs: Seq<Seq<Seq<usize>>>, jv: int|
                            i + enc_cube(vs).len() == jv && jv <= s@.len() && s@.subrange(
                                i as int,
                                jv,
                            ) == enc_cube(vs) implies {
                            let k = cube_seq(items).len() as int;
                            k < vs.len() && cube_seq(items) == vs.subrange(0, k) && j as int <= jv
                                && s@.subrange(j as int, jv) == enc_cube_items(
                                vs.subrange(k, vs.len() as int),
                            ) + seq![93u8]
                        } by {
                            let k0 = items0.len() as int;
                            let d = enc_plane(vs[k0]);
                            assert(plane_seq(val) == vs[k0] && j2 == j0 + d.len());
                            assert(s@[j2 as int] != 93);
                            assert(k0 + 1 < vs.len());
                            assert(cube_seq(items) =~= vs.subrange(0, k0 + 1));
                        }
                    }
                } else if j2 < s.len() && s[j2] == 93 {
                    proof {
                        assert(s@.subrange(i as int, j2 + 1) =~= seq![91u8] + s@.subrange(
                            i + 1,
                            j2 as int,
                        ) + seq![93u8]);
                        assert(s@.subrange(i as int, j2 + 1) == enc_cube(cube_seq(items)));
                        assert forall|vs: Seq<Seq<Seq<usize>>>, jv: int|
                            i + enc_cube(vs).len() == jv && jv <= s@.len() && s@.subrange(
                                i as int,
                                jv,
                            ) == enc_cube(vs) implies vs == cube_seq(items) && jv == j2 + 1 by {
                            let k0 = items0.len() as int;
                            let d = enc_plane(vs[k0]);
                            assert(plane_seq(val) == vs[k0] && j2 == j0 + d.len());
                            assert(s@[j2 as int] != 44);
                            assert(k0 + 1 == vs.len());
                            assert(cube_seq(items) =~= vs);
                        }
                    }
                    return Ok((items, j2 + 1));
                } else {
                    return Err(LoadError::Syntax);
                }
            },
            Err(e) => {
                return Err(e);
            },
        }
    }
}

/// The comma-separated encodings of the items of one whole grid.
pub open spec fn enc_l4_items(s: Seq<Seq<Seq<Seq<usize>>>>) -> Seq<u8>
    decreases s.len(),
{
    if s.len() == 0 {
        Seq::empty()
    } else if s.len() == 1 {
        enc_cube(s[0])
    } else {
        enc_l4_items(s.drop_last()) + seq![44u8] + enc_cube(s.last())
    }
}

/// One whole grid as text: its items between brackets.
pub open spec fn enc_l4(s: Seq<Seq<Seq<Seq<usize>>>>) -> Seq<u8> {
    seq![91u8] + enc_l4_items(s) + seq![93u8]
}

/// A non-empty item list reads as its first item, then a comma and the rest.
pub proof fn lemma_enc_l4_items_head(s: Seq<Seq<Seq<Seq<usize>>>>)
    requires
        s.len() >= 1,
    ensures
        s.len() == 1 ==> enc_l4_items(s) == enc_cube(s[0]),
        s.len() > 1 ==> enc_l4_items(s) == enc_cube(s[0]) + seq![44u8] + enc_l4_items(
            s.subrange(1, s.len() as int),
        ),
    decreases s.len(),
{
    if s.len() > 1 {
        let t = s.drop_last();
        lemma_enc_l4_items_head(t);
        if s.len() == 2 {
            assert(t =~= s.subrange(0, 1));
            assert(s.subrange(1, s.len() as int) =~= seq![s[1]]);
            assert(enc_l4_items(s.subrange(1, s.len() as int)) == enc_cube(s[1]));
            assert(enc_l4_items(s) =~= enc_cube(s[0]) + seq![44u8] + enc_l4_items(
                s.subrange(1, s.len() as int),
            ));
        } else {
            let rest = s.subrange(1, s.len() as int);
            assert(t.subrange(1, t.len() as int) =~= rest.drop_last());
            assert(rest.last() == s.last());
            assert(enc_l4_items(rest) == enc_l4_items(rest.drop_last()) + seq![44u8] + enc_cube(
                rest.last(),
            ));
            assert(enc_l4_items(s) =~= enc_cube(s[0]) + seq![44u8] + enc_l4_items(rest));
        }
    }
}

/// Reads one bracketed whole grid starting at `i`. Succeeds with value `v` ending
/// at `j` exactly when the bytes from `i` to `j` are the canonical encoding
/// of `v`.
#[verifier::rlimit(100)]
pub fn parse_l4(s: &Vec<u8>, i: usize) -> (r: Result<(Vec<Vec<Vec<Vec<usize>>>>, usize), LoadError>)
    requires
        i <= s@.len(),
    ensures
        r matches Ok(p) ==> i < p.1 <= s@.len() && s@.subrange(i as int, p.1 as int) == enc_l4(
            l4_seq(p.0),
        ),
        forall|vs: Seq<Seq<Seq<Seq<usize>>>>, j: int|
            i + enc_l4(vs).len() == j && j <= s@.len() && s@.subrange(i as int, j) == enc_l4(vs)
                ==> (r matches Ok(p) && l4_seq(p.0) == vs && p.1 == j),
        r matches Err(e) ==> e == LoadError::Syntax,
{
    if i == s.len() || s[i] != 91 {
        proof {
            assert forall|vs: Seq<Seq<Seq<Seq<usize>>>>, j: int|
                i + enc_l4(vs).len() == j && j <= s@.len() && s@.subrange(i as int, j) == enc_l4(
                    vs,
                ) implies false by {
                assert(enc_l4(vs)[0] == 91);
                assert(s@.subrange(i as int, j)[0] == s@[i as int]);
            }
        }
        return Err(LoadError::Syntax);
    }
    let mut j: usize = i + 1;
    if j < s.len() && s[j] == 93 {
        let empty_items: Vec<Vec<Vec<Vec<usize>>>> = Vec::new();
        proof {
            assert(l4_seq(empty_items) =~= Seq::<Seq<Seq<Seq<usize>>>>::empty());
            assert(s@.subrange(i as int, j + 1) =~= enc_l4(Seq::<Seq<Seq<Seq<usize>>>>::empty()));
            assert forall|vs: Seq<Seq<Seq<Seq<usize>>>>, jv: int|
                i + enc_l4(vs).len() == jv && jv <= s@.len() && s@.subrange(i as int, jv)
                    == enc_l4(vs) implies vs =~= Seq::<Seq<Seq<Seq<usize>>>>::empty() && jv == j + 1 by {
                if vs.len() > 0 {
                    lemma_enc_l4_items_head(vs);
                    assert(enc_l4(vs)[1] == enc_cube(vs[0])[0]);
                    assert(s@.subrange(i as int, jv)[1] == s@[j as int]);
                }
            }
        }
        return Ok((empty_items, j + 1));
    }
    proof {
        assert forall|vs: Seq<Seq<Seq<Seq<usize>>>>, jv: int|
            i + enc_l4(vs).len() == jv && jv <= s@.len() && s@.subrange(i as int, jv) == enc_l4(
                vs,
            ) implies vs.len() > 0 && Seq::<Seq<Seq<Seq<usize>>>>::empty() == vs.subrange(0, 0) && j as int <= jv
            && s@.subrange(j as int, jv) == enc_l4_items(vs.subrange(0, vs.len() as int))
            + seq![93u8] by {
            if vs.len() == 0 {
                assert(enc_l4(vs)[1] == 93);
                assert(s@.subrange(i as int, jv)[1] == s@[j as int]);
                assert(jv >= i + 2);
                assert(j < s@.len());
            }
            assert(Seq::<Seq<Seq<Seq<usize>>>>::empty() =~= vs.subrange(0, 0));
            assert(vs.subrange(0, vs.len() as int) =~= vs);
            let whole = enc_l4_items(vs) + seq![93u8];
            assert(jv - i == 2 + enc_l4_items(vs).len());
            assert forall|m: int| 0 <= m < whole.len() implies s@.subrange(j as int, jv)[m]
                == whole[m] by {
                assert(s@.subrange(i as int, jv)[m + 1] == enc_l4(vs)[m + 1]);
            }
            assert(s@.subrange(j as int, jv) =~= whole);
        }
        assert(s@.subrange(i + 1, j as int) =~= Seq::<u8>::empty());
    }
    let mut items: Vec<Vec<Vec<Vec<usize>>>> = Vec::new();
    proof {
        assert(l4_seq(items) =~= Seq::<Seq<Seq<Seq<usize>>>>::empty());
    }
    loop
        invariant
            i < j <= s@.len(),
            i + 1 <= j,
            s@[i as int] == 91,
            s@.subrange(i + 1, j as int) == enc_l4_items(l4_seq(items)) + (
            if l4_seq(items).len() > 0 {
                seq![44u8]
            } else {
                Seq::<u8>::empty()
            }),
            forall|vs: Seq<Seq<Seq<Seq<usize>>>>, jv: int|
                i + enc_l4(vs).len() == jv && jv <= s@.len() && s@.subrange(i as int, jv)
                    == enc_l4(vs) ==> {
                    let k = l4_seq(items).len() as int;
                    k < vs.len() && l4_seq(items) == vs.subrange(0, k) && j as int <= jv
                        && s@.subrange(j as int, jv) == enc_l4_items(vs.subrange(k, vs.len() as int))
                        + seq![93u8]
                },
        decreases s@.len() - j,
    {
        let ghost items0 = l4_seq(items);
        let ghost j0 = j as int;
        proof {
            // under any hypothesis, the encoding of the next item stands at
            // `j`, followed by a comma or the closing bracket
            assert forall|vs: Seq<Seq<Seq<Seq<usize>>>>, jv: int|
                i + enc_l4(vs).len() == jv && jv <= s@.len() && s@.subrange(i as int, jv)
                    == enc_l4(vs) implies {
                let k = items0.len() as int;
                let d = enc_cube(vs[k]);
                &&& j0 + d.len() <= s@.len()
                &&& s@.subrange(j0, j0 + d.len()) == d
                &&& j0 + d.len() < s@.len()
                &&& (k + 1 < vs.len() ==> s@[j0 + d.len()] == 44 && j0 + d.len() + 1 <= jv
                    && s@.subrange(j0 + d.len() + 1, jv) == enc_l4_items(
                    vs.subrange(k + 1, vs.len() as int),
                ) + seq![93u8])
                &&& (k + 1 == vs.len() ==> s@[j0 + d.len()] == 93 && jv == j0 + d.len() + 1)
            } by {
                let k = items0.len() as int;
                let tail = vs.subrange(k, vs.len() as int);
                let d = enc_cube(vs[k]);
                lemma_enc_l4_items_head(tail);
                assert(tail[0] == vs[k]);
                let rem = s@.subrange(j0, jv);
                assert(rem == enc_l4_items(tail) + seq![93u8]);
                if tail.len() == 1 {
                    assert(rem =~= d + seq![93u8]);
                } else {
                    let rest = enc_l4_items(tail.subrange(1, tail.len() as int));
                    assert(rem =~= d + seq![44u8] + rest + seq![93u8]);
                }
                assert(rem.len() == jv - j0);
                assert forall|m: int| 0 <= m <= d.len() implies s@[j0 + m] == rem[m] by {
                    assert(rem[m] == s@.subrange(j0, jv)[m]);
                }
                assert forall|m: int| 0 <= m < d.len() implies s@.subrange(j0, j0 + d.len())[m]
                    == d[m] by {
                    assert(s@[j0 + m] == rem[m]);
                }
                assert(s@.subrange(j0, j0 + d.len()) =~= d);
                assert(s@[j0 + d.len()] == rem[d.len() as int]);
                if k + 1 < vs.len() {
                    let rest = enc_l4_items(tail.subrange(1, tail.len() as int));
                    assert(tail.subrange(1, tail.len() as int) =~= vs.subrange(
                        k + 1,
                        vs.len() as int,
                    ));
                    let suffix = rest + seq![93u8];
                    assert(rem =~= d + seq![44u8] + suffix);
                    assert forall|m: int| 0 <= m < suffix.len() implies s@.subrange(
                        j0 + d.len() + 1,
                        jv,
                    )[m] == suffix[m] by {
                        assert(s@.subrange(j0, jv)[d.len() + 1 + m] == suffix[m]);
                        assert(s@.subrange(j0 + d.len() + 1, jv)[m] == s@[j0 + d.len() + 1 + m]);
                        assert(s@.subrange(j0, jv)[d.len() + 1 + m] == s@[j0 + d.len() + 1 + m]);
                    }
                    assert(s@.subrange(j0 + d.len() + 1, jv) =~= suffix);
                } else {
                    assert(rem =~= d + seq![93u8]);
                    assert(jv == j0 + d.len() + 1);
                }
            }
        }
        let pu = parse_cube(s, j);
        match pu {
            Ok((val, j2)) => {
                items.push(val);
                proof {
                    assert(l4_seq(items) =~= items0.push(cube_seq(val)));
                    assert(l4_seq(items).drop_last() =~= items0);
                    if items0.len() > 0 {
                        assert(enc_l4_items(l4_seq(items)) == enc_l4_items(items0) + seq![44u8] + enc_cube(
                            cube_seq(val),
                        ));
                    } else {
                        assert(enc_l4_items(l4_seq(items)) == enc_cube(cube_seq(val)));
                    }
                    assert(s@.subrange(i + 1, j2 as int) =~= s@.subrange(i + 1, j0) + s@.subrange(
                        j0,
                        j2 as int,
                    ));
                }
                if j2 < s.len() && s[j2] == 44 {
                    j = j2 + 1;
                    proof {
                        assert(s@.subrange(i + 1, j as int) =~= enc_l4_items(l4_seq(items))
                            + seq![44u8]);
                        assert forall|vs: Seq<Seq<Seq<Seq<usize>>>>, jv: int|
                            i + enc_l4(vs).len() == jv && jv <= s@.len() && s@.subrange(
                                i as int,
                                jv,
                            ) == enc_l4(vs) implies {
                            let k = l4_seq(items).len() as int;
                            k < vs.len() && l4_seq(items) == vs.subrange(0, k) && j as int <= jv
                                && s@.subrange(j as int, jv) == enc_l4_items(
                                vs.subrange(k, vs.len() as int),
                            ) + seq![93u8]
                        } by {
                            let k0 = items0.len() as int;
                            let d = enc_cube(vs[k0]);
                            assert(cube_seq(val) == vs[k0] && j2 == j0 + d.len());
                            assert(s@[j2 as int] != 93);
                            assert(k0 + 1 < vs.len());
                            assert(l4_seq(items) =~= vs.subrange(0, k0 + 1));
                        }
                    }
                } else if j2 < s.len() && s[j2] == 93 {
                    proof {
                        assert(s@.subrange(i as int, j2 + 1) =~= seq![91u8] + s@.subrange(
                            i + 1,
                            j2 as int,
                        ) + seq![93u8]);
                        assert(s@.subrange(i as int, j2 + 1) == enc_l4(l4_seq(items)));
                        assert forall|vs: Seq<Seq<Seq<Seq<usize>>>>, jv: int|
                            i + enc_l4(vs).len() == jv && jv <= s@.len() && s@.subrange(
                                i as int,
                                jv,
                            ) == enc_l4(vs) implies vs == l4_seq(items) && jv == j2 + 1 by {
                            let k0 = items0.len() as int;
                            let d = enc_cube(vs[k0]);
                            assert(cube_seq(val) == vs[k0] && j2 == j0 + d.len());
                            assert(s@[j2 as int] != 44);
                            assert(k0 + 1 == vs.len());
                            assert(l4_seq(items) =~= vs);
                        }
                    }
                    return Ok((items, j2 + 1));
                } else {
                    return Err(LoadError::Syntax);
                }
            },
            Err(e) => {
                return Err(e);
            },
        }
    }
}

/// The bytes of `(life:`.
pub open spec fn tag_life() -> Seq<u8> {
    seq![40u8, 108u8, 105u8, 102u8, 101u8, 58u8]
}

/// The bytes of `,counter:`.
pub open spec fn tag_counter() -> Seq<u8> {
    seq![44u8, 99u8, 111u8, 117u8, 110u8, 116u8, 101u8, 114u8, 58u8]
}

/// The bytes of `,generation:`.
pub open spec fn tag_generation() -> Seq<u8> {
    seq![44u8, 103u8, 101u8, 110u8, 101u8, 114u8, 97u8, 116u8, 105u8, 111u8, 110u8, 58u8]
}

/// The bytes of `,universe_size:`.
pub open spec fn tag_universe_size() -> Seq<u8> {
    seq![
        44u8,
        117u8,
        110u8,
        105u8,
        118u8,
        101u8,
        114u8,
        115u8,
        101u8,
        95u8,
        115u8,
        105u8,
        122u8,
        101u8,
        58u8,
    ]
}

/// The full text encoding of one snapshot, field names and brackets included:
/// `(life:[[[[..]..]..]..],counter:N,generation:N,universe_size:N)`.
pub open spec fn spec_save_bytes(
    life: Seq<Seq<Seq<Seq<usize>>>>,
    counter: int,
    generation: int,
    size: nat,
) -> Seq<u8> {
    tag_life() + enc_l4(life) + tag_counter() + enc_i64(counter) + tag_generation() + enc_i64(
        generation,
    ) + tag_universe_size() + dec_u64(size) + seq![41u8]
}

/// The text encoding of a record value.
pub open spec fn rec_bytes(rec: SaveResource) -> Seq<u8> {
    spec_save_bytes(
        l4_seq(rec.life),
        rec.counter as int,
        rec.generation as int,
        rec.universe_size as nat,
    )
}

/// Appends the encoding of one z-row.
fn push_row(out: &mut Vec<u8>, v: &Vec<usize>)
    ensures
        final(out)@ == old(out)@ + enc_row(v@),
{
    let ghost base = old(out)@ + seq![91u8];
    out.push(91);
    for k in 0..v.len()
        invariant
            base == old(out)@ + seq![91u8],
            out@ == base + enc_row_items(v@.subrange(0, k as int)),
    {
        let ghost pre = v@.subrange(0, k as int);
        if k > 0 {
            out.push(44);
        }
        push_u64(out, v[k] as u64);
        proof {
            let cur = v@.subrange(0, k + 1);
            assert(cur.drop_last() =~= pre);
            assert(cur.last() == v@[k as int]);
            assert((v@[k as int] as u64) as nat == v@[k as int] as nat);
            if k > 0 {
                assert(out@ =~= base + (enc_row_items(pre) + seq![44u8] + dec_u64(
                    v@[k as int] as nat,
                )));
            } else {
                assert(pre.len() == 0);
                assert(out@ =~= base + dec_u64(v@[k as int] as nat));
            }
        }
    }
    out.push(93);
    proof {
        assert(v@.subrange(0, v@.len() as int) =~= v@);
        assert(final(out)@ =~= old(out)@ + enc_row(v@));
    }
}

/// Appends the encoding of one y-z plane.
fn push_plane(out: &mut Vec<u8>, v: &Vec<Vec<usize>>)
    ensures
        final(out)@ == old(out)@ + enc_plane(plane_seq(*v)),
{
    let ghost base = old(out)@ + seq![91u8];
    out.push(91);
    for k in 0..v.len()
        invariant
            base == old(out)@ + seq![91u8],
            out@ == base + enc_plane_items(plane_seq(*v).subrange(0, k as int)),
    {
        let ghost pre = plane_seq(*v).subrange(0, k as int);
        if k > 0 {
            out.push(44);
        }
        push_row(out, &v[k]);
        proof {
            let cur = plane_seq(*v).subrange(0, k + 1);
            assert(cur.drop_last() =~= pre);
            assert(cur.last() == plane_seq(*v)[k as int]);
            assert(plane_seq(*v)[k as int] == v@[k as int]@);
            if k > 0 {
                assert(out@ =~= base + (enc_plane_items(pre) + seq![44u8] + enc_row(
                    v@[k as int]@,
                )));
            } else {
                assert(pre.len() == 0);
                assert(out@ =~= base + enc_row(v@[k as int]@));
            }
        }
    }
    out.push(93);
    proof {
        assert(plane_seq(*v).subrange(0, v@.len() as int) =~= plane_seq(*v));
        assert(final(out)@ =~= old(out)@ + enc_plane(plane_seq(*v)));
    }
}

/// Appends the encoding of one orientation layer.
fn push_cube(out: &mut Vec<u8>, v: &Vec<Vec<Vec<usize>>>)
    ensures
        final(out)@ == old(out)@ + enc_cube(cube_seq(*v)),
{
    let ghost base = old(out)@ + seq![91u8];
    out.push(91);
    for k in 0..v.len()
        invariant
            base == old(out)@ + seq![91u8],
            out@ == base + enc_cube_items(cube_seq(*v).subrange(0, k as int)),
    {
        let ghost pre = cube_seq(*v).subrange(0, k as int);
        if k > 0 {
            out.push(44);
        }
        push_plane(out, &v[k]);
        proof {
            let cur = cube_seq(*v).subrange(0, k + 1);
            assert(cur.drop_last() =~= pre);
            assert(cur.last() == cube_seq(*v)[k as int]);
            assert(cube_seq(*v)[k as int] == plane_seq(v@[k as int]));
            if k > 0 {
                assert(out@ =~= base + (enc_cube_items(pre) + seq![44u8] + enc_plane(
                    plane_seq(v@[k as int]),
                )));
            } else {
                assert(pre.len() == 0);
                assert(out@ =~= base + enc_plane(plane_seq(v@[k as int])));
            }
        }
    }
    out.push(93);
    proof {
        assert(cube_seq(*v).subrange(0, v@.len() as int) =~= cube_seq(*v));
        assert(final(out)@ =~= old(out)@ + enc_cube(cube_seq(*v)));
    }
}

/// Appends the encoding of a whole grid.
fn push_l4(out: &mut Vec<u8>, v: &Vec<Vec<Vec<Vec<usize>>>>)
    ensures
        final(out)@ == old(out)@ + enc_l4(l4_seq(*v)),
{
    let ghost base = old(out)@ + seq![91u8];
    out.push(91);
    for k in 0..v.len()
        invariant
            base == old(out)@ + seq![91u8],
            out@ == base + enc_l4_items(l4_seq(*v).subrange(0, k as int)),
    {
        let ghost pre = l4_seq(*v).subrange(0, k as int);
        if k > 0 {
            out.push(44);
        }
        push_cube(out, &v[k]);
        proof {
            let cur = l4_seq(*v).subrange(0, k + 1);
            assert(cur.drop_last() =~= pre);
            assert(cur.last() == l4_seq(*v)[k as int]);
            assert(l4_seq(*v)[k as int] == cube_seq(v@[k as int]));
            if k > 0 {
                assert(out@ =~= base + (enc_l4_items(pre) + seq![44u8] + enc_cube(
                    cube_seq(v@[k as int]),
                )));
            } else {
                assert(pre.len() == 0);
                assert(out@ =~= base + enc_cube(cube_seq(v@[k as int])));
            }
        }
    }
    out.push(93);
    proof {
        assert(l4_seq(*v).subrange(0, v@.len() as int) =~= l4_seq(*v));
        assert(final(out)@ =~= old(out)@ + enc_l4(l4_seq(*v)));
    }
}

/// Writes a record in the save-file text form. Encoding is total: every
/// record has exactly one encoding, and `parse_save` reads it back.
#[verifier::rlimit(100)]
pub fn encode_save(rec: &SaveResource) -> (out: Vec<u8>)
    ensures
        out@ == rec_bytes(*rec),
{
    let mut out: Vec<u8> = Vec::new();
    out.push(40);
    out.push(108);
    out.push(105);
    out.push(102);
    out.push(101);
    out.push(58);
    proof {
        assert(out@ =~= tag_life());
    }
    let ghost c1 = out@;
    push_l4(&mut out, &rec.life);
    out.push(44);
    out.push(99);
    out.push(111);
    out.push(117);
    out.push(110);
    out.push(116);
    out.push(101);
    out.push(114);
    out.push(58);
    proof {
        assert(out@ =~= c1 + enc_l4(l4_seq(rec.life)) + tag_counter());
    }
    let ghost c2 = out@;
    push_i64(&mut out, rec.counter);
    out.push(44);
    out.push(103);
    out.push(101);
    out.push(110);
    out.push(101);
    out.push(114);
    out.push(97);
    out.push(116);
    out.push(105);
    out.push(111);
    out.push(110);
    out.push(58);
    proof {
        assert(out@ =~= c2 + enc_i64(rec.counter as int) + tag_generation());
    }
    let ghost c3 = out@;
    push_i64(&mut out, rec.generation);
    out.push(44);
    out.push(117);
    out.push(110);
    out.push(105);
    out.push(118);
    out.push(101);
    out.push(114);
    out.push(115);
    out.push(101);
    out.push(95);
    out.push(115);
    out.push(105);
    out.push(122);
    out.push(101);
    out.push(58);
    proof {
        assert(out@ =~= c3 + enc_i64(rec.generation as int) + tag_universe_size());
    }
    let ghost c4 = out@;
    push_u64(&mut out, rec.universe_size as u64);
    out.push(41);
    proof {
        assert((rec.universe_size as u64) as nat == rec.universe_size as nat);
        assert(out@ =~= c4 + dec_u64(rec.universe_size as nat) + seq![41u8]);
        assert(out@ =~= rec_bytes(*rec));
    }
    out
}
/// Expects the literal `(life:` at `j`.
fn expect_life_tag(s: &Vec<u8>, j: usize) -> (r: Result<usize, LoadError>)
    requires
        j <= s@.len(),
    ensures
        r matches Ok(p) ==> p == j + 6 && p <= s@.len() && s@.subrange(j as int, p as int)
            == tag_life(),
        j + 6 <= s@.len() && s@.subrange(j as int, j + 6) == tag_life() ==> r is Ok,
        r matches Err(e) ==> e == LoadError::Syntax,
{
    if s.len() - j < 6 {
        return Err(LoadError::Syntax);
    }
    if s[j + 0] != 40 {
        return Err(LoadError::Syntax);
    }
    if s[j + 1] != 108 {
        return Err(LoadError::Syntax);
    }
    if s[j + 2] != 105 {
        return Err(LoadError::Syntax);
    }
    if s[j + 3] != 102 {
        return Err(LoadError::Syntax);
    }
    if s[j + 4] != 101 {
        return Err(LoadError::Syntax);
    }
    if s[j + 5] != 58 {
        return Err(LoadError::Syntax);
    }
    proof {
        assert(s@.subrange(j as int, j + 6) =~= tag_life());
    }
    Ok(j + 6)
}

/// Expects the literal `,counter:` at `j`.
fn expect_counter_tag(s: &Vec<u8>, j: usize) -> (r: Result<usize, LoadError>)
    requires
        j <= s@.len(),
    ensures
        r matches Ok(p) ==> p == j + 9 && p <= s@.len() && s@.subrange(j as int, p as int)
            == tag_counter(),
        j + 9 <= s@.len() && s@.subrange(j as int, j + 9) == tag_counter() ==> r is Ok,
        r matches Err(e) ==> e == LoadError::Syntax,
{
    if s.len() - j < 9 {
        return Err(LoadError::Syntax);
    }
    if s[j + 0] != 44 {
        return Err(LoadError::Syntax);
    }
    if s[j + 1] != 99 {
        return Err(LoadError::Syntax);
    }
    if s[j + 2] != 111 {
        return Err(LoadError::Syntax);
    }
    if s[j + 3] != 117 {
        return Err(LoadError::Syntax);
    }
    if s[j + 4] != 110 {
        return Err(LoadError::Syntax);
    }
    if s[j + 5] != 116 {
        return Err(LoadError::Syntax);
    }
    if s[j + 6] != 101 {
        return Err(LoadError::Syntax);
    }
    if s[j + 7] != 114 {
        return Err(LoadError::Syntax);
    }
    if s[j + 8] != 58 {
        return Err(LoadError::Syntax);
    }
    proof {
        assert(s@.subrange(j as int, j + 9) =~= tag_counter());
    }
    Ok(j + 9)
}

/// Expects the literal `,generation:` at `j`.
fn expect_generation_tag(s: &Vec<u8>, j: usize) -> (r: Result<usize, LoadError>)
    requires
        j <= s@.len(),
    ensures
        r matches Ok(p) ==> p == j + 12 && p <= s@.len() && s@.subrange(j as int, p as int)
            == tag_generation(),
        j + 12 <= s@.len() && s@.subrange(j as int, j + 12) == tag_generation() ==> r is Ok,
        r matches Err(e) ==> e == LoadError::Syntax,
{
    if s.len() - j < 12 {
        return Err(LoadError::Syntax);
    }
    if s[j + 0] != 44 {
        return Err(LoadError::Syntax);
    }
    if s[j + 1] != 103 {
        return Err(LoadError::Syntax);
    }
    if s[j + 2] != 101 {
        return Err(LoadError::Syntax);
    }
    if s[j + 3] != 110 {
        return Err(LoadError::Syntax);
    }
    if s[j + 4] != 101 {
        return Err(LoadError::Syntax);
    }
    if s[j + 5] != 114 {
        return Err(LoadError::Syntax);
    }
    if s[j + 6] != 97 {
        return Err(LoadError::Syntax);
    }
    if s[j + 7] != 116 {
        return Err(LoadError::Syntax);
    }
    if s[j + 8] != 105 {
        return Err(LoadError::Syntax);
    }
    if s[j + 9] != 111 {
        return Err(LoadError::Syntax);
    }
    if s[j + 10] != 110 {
        return Err(LoadError::Syntax);
    }
    if s[j + 11] != 58 {
        return Err(LoadError::Syntax);
    }
    proof {
        assert(s@.subrange(j as int, j + 12) =~= tag_generation());
    }
    Ok(j + 12)
}

/// Expects the literal `,universe_size:` at `j`.
fn expect_universe_size_tag(s: &Vec<u8>, j: usize) -> (r: Result<usize, LoadError>)
    requires
        j <= s@.len(),
    ensures
        r matches Ok(p) ==> p == j + 15 && p <= s@.len() && s@.subrange(j as int, p as int)
            == tag_universe_size(),
        j + 15 <= s@.len() && s@.subrange(j as int, j + 15) == tag_universe_size() ==> r is Ok,
        r matches Err(e) ==> e == LoadError::Syntax,
{
    if s.len() - j < 15 {
        return Err(LoadError::Syntax);
    }
    if s[j + 0] != 44 {
        return Err(LoadError::Syntax);
    }
    if s[j + 1] != 117 {
        return Err(LoadError::Syntax);
    }
    if s[j + 2] != 110 {
        return Err(LoadError::Syntax);
    }
    if s[j + 3] != 105 {
        return Err(LoadError::Syntax);
    }
    if s[j + 4] != 118 {
        return Err(LoadError::Syntax);
    }
    if s[j + 5] != 101 {
        return Err(LoadError::Syntax);
    }
    if s[j + 6] != 114 {
        return Err(LoadError::Syntax);
    }
    if s[j + 7] != 115 {
        return Err(LoadError::Syntax);
    }
    if s[j + 8] != 101 {
        return Err(LoadError::Syntax);
    }
    if s[j + 9] != 95 {
        return Err(LoadError::Syntax);
    }
    if s[j + 10] != 115 {
        return Err(LoadError::Syntax);
    }
    if s[j + 11] != 105 {
        return Err(LoadError::Syntax);
    }
    if s[j + 12] != 122 {
        return Err(LoadError::Syntax);
    }
    if s[j + 13] != 101 {
        return Err(LoadError::Syntax);
    }
    if s[j + 14] != 58 {
        return Err(LoadError::Syntax);
    }
    proof {
        assert(s@.subrange(j as int, j + 15) =~= tag_universe_size());
    }
    Ok(j + 15)
}

/// The positional decomposition of a record encoding: where each field's
/// bytes stand and what follows them.
proof fn lemma_save_bytes_split(
    s: Seq<u8>,
    lv: Seq<Seq<Seq<Seq<usize>>>>,
    c: i64,
    g: i64,
    us: usize,
)
    requires
        s == spec_save_bytes(lv, c as int, g as int, us as nat),
    ensures
        ({
            let p1 = 6 + enc_l4(lv).len() as int;
            let p2 = p1 + 9;
            let p3 = p2 + enc_i64(c as int).len() as int;
            let p4 = p3 + 12;
            let p5 = p4 + enc_i64(g as int).len() as int;
            let p6 = p5 + 15;
            let p7 = p6 + dec_u64(us as nat).len() as int;
            &&& s.len() == p7 + 1
            &&& s.subrange(0, 6) == tag_life()
            &&& s.subrange(6, p1) == enc_l4(lv)
            &&& s.subrange(p1, p2) == tag_counter()
            &&& s.subrange(p2, p3) == enc_i64(c as int)
            &&& !is_digit(s[p3])
            &&& s.subrange(p3, p4) == tag_generation()
            &&& s.subrange(p4, p5) == enc_i64(g as int)
            &&& !is_digit(s[p5])
            &&& s.subrange(p5, p6) == tag_universe_size()
            &&& s.subrange(p6, p7) == dec_u64(us as nat)
            &&& !is_digit(s[p7])
            &&& s[p7] == 41
        }),
{
    let p1 = 6 + enc_l4(lv).len() as int;
    let p2 = p1 + 9;
    let p3 = p2 + enc_i64(c as int).len() as int;
    let p4 = p3 + 12;
    let p5 = p4 + enc_i64(g as int).len() as int;
    let p6 = p5 + 15;
    let p7 = p6 + dec_u64(us as nat).len() as int;
    assert(s.subrange(0, 6) =~= tag_life());
    assert(s.subrange(6, p1) =~= enc_l4(lv));
    assert(s.subrange(p1, p2) =~= tag_counter());
    assert(s.subrange(p2, p3) =~= enc_i64(c as int));
    assert(s.subrange(p3, p4) =~= tag_generation());
    assert(s.subrange(p4, p5) =~= enc_i64(g as int));
    assert(s.subrange(p5, p6) =~= tag_universe_size());
    assert(s.subrange(p6, p7) =~= dec_u64(us as nat));
    assert(s[p3] == 44);
    assert(s[p5] == 44);
    assert(s[p7] == 41);
}

/// Reads one record from the save-file text form. Succeeds exactly on the
/// canonical encoding of a record whose numbers fit their fields, and then
/// returns that record; every other input is a syntax error.
#[verifier::rlimit(100)]
pub fn parse_save(s: &Vec<u8>) -> (r: Result<SaveResource, LoadError>)
    ensures
        r matches Ok(rec) ==> s@ == rec_bytes(rec),
        forall|lv: Seq<Seq<Seq<Seq<usize>>>>, c: i64, g: i64, us: usize|
            s@ == spec_save_bytes(lv, c as int, g as int, us as nat) ==> (r matches Ok(rec)
                && l4_seq(rec.life) == lv && rec.counter == c && rec.generation == g
                && rec.universe_size == us),
        r matches Err(e) ==> e == LoadError::Syntax,
{
    proof {
        assert forall|lv: Seq<Seq<Seq<Seq<usize>>>>, c: i64, g: i64, us: usize|
            s@ == spec_save_bytes(lv, c as int, g as int, us as nat) implies {
            let p1 = 6 + enc_l4(lv).len() as int;
            let p2 = p1 + 9;
            let p3 = p2 + enc_i64(c as int).len() as int;
            let p4 = p3 + 12;
            let p5 = p4 + enc_i64(g as int).len() as int;
            let p6 = p5 + 15;
            let p7 = p6 + dec_u64(us as nat).len() as int;
            &&& s@.len() == p7 + 1
            &&& s@.subrange(0, 6) == tag_life()
            &&& s@.subrange(6, p1) == enc_l4(lv)
            &&& s@.subrange(p1, p2) == tag_counter()
            &&& s@.subrange(p2, p3) == enc_i64(c as int)
            &&& !is_digit(s@[p3])
            &&& s@.subrange(p3, p4) == tag_generation()
            &&& s@.subrange(p4, p5) == enc_i64(g as int)
            &&& !is_digit(s@[p5])
            &&& s@.subrange(p5, p6) == tag_universe_size()
            &&& s@.subrange(p6, p7) == dec_u64(us as nat)
            &&& !is_digit(s@[p7])
            &&& s@[p7] == 41
        } by {
            lemma_save_bytes_split(s@, lv, c, g, us);
        }
    }
    let j0 = match expect_life_tag(s, 0) {
        Ok(j) => j,
        Err(e) => {
            return Err(e);
        },
    };
    let (life, j1) = match parse_l4(s, j0) {
        Ok(p) => p,
        Err(e) => {
            return Err(e);
        },
    };
    let j2 = match expect_counter_tag(s, j1) {
        Ok(j) => j,
        Err(e) => {
            return Err(e);
        },
    };
    let (counter, j3) = match parse_i64(s, j2) {
        Ok(p) => p,
        Err(e) => {
            return Err(e);
        },
    };
    let j4 = match expect_generation_tag(s, j3) {
        Ok(j) => j,
        Err(e) => {
            return Err(e);
        },
    };
    let (generation, j5) = match parse_i64(s, j4) {
        Ok(p) => p,
        Err(e) => {
            return Err(e);
        },
    };
    let j6 = match expect_universe_size_tag(s, j5) {
        Ok(j) => j,
        Err(e) => {
            return Err(e);
        },
    };
    let (us64, j7) = match parse_u64(s, j6) {
        Ok(p) => p,
        Err(e) => {
            return Err(e);
        },
    };
    if us64 > usize::MAX as u64 {
        return Err(LoadError::Syntax);
    }
    let j8 = if j7 < s.len() && s[j7] == 41 {
        j7 + 1
    } else {
        return Err(LoadError::Syntax);
    };
    if j8 != s.len() {
        return Err(LoadError::Syntax);
    }
    let rec = SaveResource { life, counter, generation, universe_size: us64 as usize };
    proof {
        assert(s@ =~= s@.subrange(0, j0 as int) + s@.subrange(j0 as int, j1 as int) + s@.subrange(
            j1 as int,
            j2 as int,
        ) + s@.subrange(j2 as int, j3 as int) + s@.subrange(j3 as int, j4 as int) + s@.subrange(
            j4 as int,
            j5 as int,
        ) + s@.subrange(j5 as int, j6 as int) + s@.subrange(j6 as int, j7 as int) + seq![41u8]);
        assert((us64 as usize) as nat == us64 as nat);
        assert(s@ == rec_bytes(rec));
    }
    Ok(rec)
}

} // verus!
