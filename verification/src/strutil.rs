//! Small verified string-building helpers shared by the printers: decimal
//! rendering of numbers and repetition of an indent unit.
use vstd::prelude::*;

verus! {

pub open spec fn digit_char(d: nat) -> char {
    if d == 0 {
        '0'
    } else if d == 1 {
        '1'
    } else if d == 2 {
        '2'
    } else if d == 3 {
        '3'
    } else if d == 4 {
        '4'
    } else if d == 5 {
        '5'
    } else if d == 6 {
        '6'
    } else if d == 7 {
        '7'
    } else if d == 8 {
        '8'
    } else {
        '9'
    }
}

/// Decimal representation of `n`, most significant digit first.
pub open spec fn dec_str(n: nat) -> Seq<char>
    decreases n,
{
    if n < 10 {
        seq![digit_char(n)]
    } else {
        dec_str(n / 10).push(digit_char(n % 10))
    }
}

/// Appends the decimal representation of `n` to `out`.
pub fn push_dec(out: &mut String, n: usize)
    ensures
        final(out)@ == old(out)@ + dec_str(n as nat),
    decreases n,
{
    if n >= 10 {
        push_dec(out, n / 10);
    }
    let d = n % 10;
    let lit = if d == 0 {
        "0"
    } else if d == 1 {
        "1"
    } else if d == 2 {
        "2"
    } else if d == 3 {
        "3"
    } else if d == 4 {
        "4"
    } else if d == 5 {
        "5"
    } else if d == 6 {
        "6"
    } else if d == 7 {
        "7"
    } else if d == 8 {
        "8"
    } else {
        "9"
    };
    proof {
        reveal_strlit("0");
        reveal_strlit("1");
        reveal_strlit("2");
        reveal_strlit("3");
        reveal_strlit("4");
        reveal_strlit("5");
        reveal_strlit("6");
        reveal_strlit("7");
        reveal_strlit("8");
        reveal_strlit("9");
        assert(lit@ =~= seq![digit_char((n % 10) as nat)]);
    }
    out.append(lit);
    proof {
        if n >= 10 {
            assert(old(out)@ + dec_str(n as nat) =~= (old(out)@ + dec_str(
                (n / 10) as nat,
            )) + lit@);
        } else {
            assert(old(out)@ + dec_str(n as nat) =~= old(out)@ + lit@);
        }
    }
}

/// `unit` repeated `n` times.
pub open spec fn repeat_str(unit: Seq<char>, n: nat) -> Seq<char>
    decreases n,
{
    if n == 0 {
        Seq::empty()
    } else {
        repeat_str(unit, (n - 1) as nat) + unit
    }
}

/// Appends `unit` to `out` `n` times.
pub fn push_repeat(out: &mut String, unit: &str, n: usize)
    ensures
        final(out)@ == old(out)@ + repeat_str(unit@, n as nat),
{
    let mut k: usize = 0;
    assert(old(out)@ + repeat_str(unit@, 0) =~= old(out)@);
    while k < n
        invariant
            k <= n,
            out@ == old(out)@ + repeat_str(unit@, k as nat),
        decreases n - k,
    {
        out.append(unit);
        k = k + 1;
        assert(old(out)@ + repeat_str(unit@, k as nat) =~= (old(out)@ + repeat_str(
            unit@,
            (k - 1) as nat,
        )) + unit@);
    }
}

/// The tail of a separated join: a separator before every element.
pub open spec fn join_tail(v: Seq<Seq<char>>, sep: Seq<char>) -> Seq<char>
    decreases v.len(),
{
    if v.len() == 0 {
        Seq::empty()
    } else {
        sep + v[0] + join_tail(v.subrange(1, v.len() as int), sep)
    }
}

/// The elements of `v` joined with `sep` between them.
pub open spec fn join_strs(v: Seq<Seq<char>>, sep: Seq<char>) -> Seq<char> {
    if v.len() == 0 {
        Seq::empty()
    } else {
        v[0] + join_tail(v.subrange(1, v.len() as int), sep)
    }
}

/// Appends the cells joined with `sep` to `out`.
pub fn push_join(out: &mut String, cells: &Vec<String>, sep: &str)
    ensures
        final(out)@ == old(out)@ + join_strs(crate::ast::strs_rep(cells@), sep@),
{
    let ghost rep = crate::ast::strs_rep(cells@);
    let n = cells.len();
    if n == 0 {
        proof {
            assert(old(out)@ + join_strs(rep, sep@) =~= old(out)@);
        }
        return ;
    }
    out.append(cells[0].as_str());
    let mut k: usize = 1;
    proof {
        assert(old(out)@ + join_strs(rep, sep@) =~= out@ + join_tail(
            rep.subrange(1, rep.len() as int),
            sep@,
        ));
    }
    while k < n
        invariant
            1 <= k <= n,
            n == cells@.len(),
            rep == crate::ast::strs_rep(cells@),
            old(out)@ + join_strs(rep, sep@) == out@ + join_tail(
                rep.subrange(k as int, rep.len() as int),
                sep@,
            ),
        decreases n - k,
    {
        let ghost tail = rep.subrange(k as int, rep.len() as int);
        out.append(sep);
        out.append(cells[k].as_str());
        k = k + 1;
        proof {
            assert(tail.subrange(1, tail.len() as int) =~= rep.subrange(
                k as int,
                rep.len() as int,
            ));
            assert(out@ + join_tail(rep.subrange(k as int, rep.len() as int), sep@)
                =~= old(out)@ + join_strs(rep, sep@));
        }
    }
    proof {
        assert(rep.subrange(n as int, rep.len() as int) =~= Seq::<Seq<char>>::empty());
        assert(out@ =~= old(out)@ + join_strs(rep, sep@));
    }
}

} // verus!
