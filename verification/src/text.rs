//! Character-sequence helpers shared by the formatter: the whitespace
//! predicate, trimming, and small executable routines over `Vec<char>`.

use vstd::prelude::*;

verus! {

use vstd::std_specs::iter::IteratorSpec;

/// The Unicode white-space characters, the set `char::is_whitespace`
/// accepts: the ASCII spacing characters, next line, no-break space, ogham
/// space mark, the en-quad..hair-space range, line and paragraph separator,
/// narrow no-break space, medium mathematical space, and ideographic space.
pub open spec fn is_ws(c: char) -> bool {
    let u = c as u32;
    u == 0x09 || u == 0x0a || u == 0x0b || u == 0x0c || u == 0x0d || u == 0x20 || u == 0x85
        || u == 0xa0 || u == 0x1680 || (0x2000 <= u && u <= 0x200a) || u == 0x2028
        || u == 0x2029 || u == 0x202f || u == 0x205f || u == 0x3000
}

/// `s` with every trailing whitespace character removed.
pub open spec fn trim_end_s(s: Seq<char>) -> Seq<char>
    decreases s.len(),
{
    if s.len() > 0 && is_ws(s[s.len() - 1]) {
        trim_end_s(s.drop_last())
    } else {
        s
    }
}

/// `s` with every leading whitespace character removed.
pub open spec fn trim_start_s(s: Seq<char>) -> Seq<char>
    decreases s.len(),
{
    if s.len() > 0 && is_ws(s[0]) {
        trim_start_s(s.drop_first())
    } else {
        s
    }
}

/// `s` with both leading and trailing whitespace removed.
pub open spec fn trim_s(s: Seq<char>) -> Seq<char> {
    trim_start_s(trim_end_s(s))
}

/// Whether `c` is whitespace, decided at run time.
pub fn is_ws_char(c: char) -> (b: bool)
    ensures
        b == is_ws(c),
{
    let u = c as u32;
    u == 0x09 || u == 0x0a || u == 0x0b || u == 0x0c || u == 0x0d || u == 0x20 || u == 0x85
        || u == 0xa0 || u == 0x1680 || (0x2000 <= u && u <= 0x200a) || u == 0x2028
        || u == 0x2029 || u == 0x202f || u == 0x205f || u == 0x3000
}

/// Removes the trailing whitespace of `buf` in place.
pub fn trim_end_vec(buf: &mut Vec<char>)
    ensures
        final(buf)@ == trim_end_s(old(buf)@),
{
    loop
        invariant
            trim_end_s(buf@) == trim_end_s(old(buf)@),
        ensures
            buf@ == trim_end_s(old(buf)@),
        decreases buf@.len(),
    {
        if buf.len() > 0 && is_ws_char(buf[buf.len() - 1]) {
            proof {
                assert(buf@.drop_last() =~= buf@.subrange(0, buf@.len() - 1));
            }
            buf.pop();
        } else {
            proof {
                assert(trim_end_s(buf@) == buf@);
            }
            break;
        }
    }
}

/// Appends every character of `src` to `dst`.
pub fn append_chars(dst: &mut Vec<char>, src: &Vec<char>)
    ensures
        final(dst)@ == old(dst)@ + src@,
{
    let mut i: usize = 0;
    while i < src.len()
        invariant
            i <= src.len(),
            dst@ == old(dst)@ + src@.take(i as int),
        decreases src.len() - i,
    {
        dst.push(src[i]);
        proof {
            assert(old(dst)@ + src@.take(i + 1) =~= (old(dst)@ + src@.take(i as int)).push(
                src@[i as int],
            ));
        }
        i = i + 1;
    }
    proof {
        assert(src@.take(src@.len() as int) =~= src@);
    }
}

/// The length of `v` once leading and trailing whitespace are dropped.
pub fn trimmed_len(v: &Vec<char>) -> (n: usize)
    ensures
        n == trim_s(v@).len(),
{
    let mut end: usize = v.len();
    proof {
        assert(v@.take(v@.len() as int) =~= v@);
    }
    while end > 0 && is_ws_char(v[end - 1])
        invariant
            end <= v.len(),
            trim_end_s(v@) == trim_end_s(v@.take(end as int)),
        decreases end,
    {
        proof {
            assert(v@.take(end as int).drop_last() =~= v@.take(end - 1));
        }
        end = end - 1;
    }
    proof {
        assert(trim_end_s(v@) == v@.take(end as int));
    }
    let ghost t = v@.take(end as int);
    let mut start: usize = 0;
    proof {
        assert(t.skip(0) =~= t);
    }
    while start < end && is_ws_char(v[start])
        invariant
            start <= end,
            end <= v.len(),
            t == v@.take(end as int),
            trim_start_s(t) == trim_start_s(t.skip(start as int)),
        decreases end - start,
    {
        proof {
            assert(t.skip(start as int)[0] == v@[start as int]);
            assert(t.skip(start as int).drop_first() =~= t.skip(start + 1));
        }
        start = start + 1;
    }
    proof {
        if start < end {
            assert(t.skip(start as int)[0] == v@[start as int]);
        }
        assert(trim_start_s(t.skip(start as int)) == t.skip(start as int));
        assert(trim_s(v@) == t.skip(start as int));
    }
    end - start
}

/// A copy of `v` with its leading whitespace removed.
pub fn trim_start_vec(v: &Vec<char>) -> (r: Vec<char>)
    ensures
        r@ == trim_start_s(v@),
{
    let mut k: usize = 0;
    proof {
        assert(v@.skip(0) =~= v@);
    }
    while k < v.len() && is_ws_char(v[k])
        invariant
            k <= v.len(),
            trim_start_s(v@) == trim_start_s(v@.skip(k as int)),
        decreases v.len() - k,
    {
        proof {
            assert(v@.skip(k as int)[0] == v@[k as int]);
            assert(v@.skip(k as int).drop_first() =~= v@.skip(k + 1));
        }
        k = k + 1;
    }
    proof {
        if k < v.len() {
            assert(v@.skip(k as int)[0] == v@[k as int]);
        }
        assert(trim_start_s(v@) == v@.skip(k as int));
    }
    let mut r: Vec<char> = Vec::new();
    let mut j: usize = k;
    while j < v.len()
        invariant
            k <= j <= v.len(),
            r@ == v@.subrange(k as int, j as int),
        decreases v.len() - j,
    {
        r.push(v[j]);
        proof {
            assert(v@.subrange(k as int, j + 1) =~= v@.subrange(k as int, j as int).push(
                v@[j as int],
            ));
        }
        j = j + 1;
    }
    proof {
        assert(v@.subrange(k as int, v@.len() as int) =~= v@.skip(k as int));
    }
    r
}

/// Appends the characters of `src` between `from` and `to` to `dst`.
pub fn push_range(dst: &mut Vec<char>, src: &Vec<char>, from: usize, to: usize)
    requires
        from <= to <= src@.len(),
    ensures
        final(dst)@ == old(dst)@ + src@.subrange(from as int, to as int),
{
    let mut j: usize = from;
    while j < to
        invariant
            from <= j <= to <= src@.len(),
            dst@ == old(dst)@ + src@.subrange(from as int, j as int),
        decreases to - j,
    {
        dst.push(src[j]);
        proof {
            assert(src@.subrange(from as int, j + 1) =~= src@.subrange(from as int, j as int).push(
                src@[j as int],
            ));
        }
        j = j + 1;
    }
}

/// Relies on `String`'s `FromIterator` impl: collecting characters yields
/// the string made of exactly those characters, in order.
#[verifier::external_body]
pub fn string_from_chars(v: &Vec<char>) -> (r: String)
    ensures
        r@ == v@,
{
    v.iter().collect()
}

/// The characters of `s`, as a vector.
pub fn chars_of(s: &str) -> (r: Vec<char>)
    ensures
        r@ == s@,
{
    broadcast use vstd::string::axiom_spec_iter, vstd::string::next_postcondition;

    let mut it = s.chars();
    let mut out: Vec<char> = Vec::new();
    loop
        invariant
            it.obeys_prophetic_iter_laws(),
            it.decrease() is Some,
            out@ + it.remaining() == s@,
        ensures
            out@ == s@,
        decreases it.decrease()->0,
    {
        let ghost prev = it.remaining();
        match it.next() {
            Some(c) => {
                out.push(c);
                proof {
                    assert(out@ + it.remaining() =~= s@);
                }
            },
            None => {
                proof {
                    assert(out@ + it.remaining() =~= out@);
                }
                break;
            },
        }
    }
    out
}

} // verus!
