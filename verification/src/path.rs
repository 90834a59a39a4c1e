//! Derivation of the output file path from the input file path: the file
//! name's stem gains a `_mod` suffix, and the extension is kept, or `json`
//! is assumed when there is none.

use vstd::prelude::*;
use crate::text::{chars_of, push_range, string_from_chars};

verus! {

/// Where the file name begins: just after the last `/`, or 0 without one.
pub open spec fn name_start(p: Seq<char>) -> int
    decreases p.len(),
{
    if p.len() == 0 {
        0
    } else if p[p.len() - 1] == '/' {
        p.len() as int
    } else {
        name_start(p.drop_last())
    }
}

/// The index of the last `.` of `s`, or -1 without one.
pub open spec fn last_dot(s: Seq<char>) -> int
    decreases s.len(),
{
    if s.len() == 0 {
        -1
    } else if s[s.len() - 1] == '.' {
        s.len() - 1
    } else {
        last_dot(s.drop_last())
    }
}

/// The `_mod.` infix placed between stem and extension.
pub open spec fn mod_infix() -> Seq<char> {
    seq!['_', 'm', 'o', 'd', '.']
}

/// The extension assumed when the input path has none.
pub open spec fn default_ext() -> Seq<char> {
    seq!['j', 's', 'o', 'n']
}

/// Whether the file name is the current- or parent-directory name, `.` or
/// `..`: such a name has neither stem nor extension.
pub open spec fn is_dot_name(name: Seq<char>) -> bool {
    name == seq!['.'] || name == seq!['.', '.']
}

/// The output path derived from input path `p`: directory part unchanged,
/// then the file name's stem, `_mod.`, and the extension. A `.` at the very
/// start of the file name begins the stem rather than an extension; the
/// names `.` and `..` have an empty stem; without any extension, `json` is
/// assumed.
pub open spec fn derived_path_s(p: Seq<char>) -> Seq<char> {
    let ns = name_start(p);
    let name = p.skip(ns);
    let d = last_dot(name);
    if is_dot_name(name) {
        p.take(ns) + mod_infix() + default_ext()
    } else if d > 0 {
        p.take(ns) + name.take(d) + mod_infix() + name.skip(d + 1)
    } else {
        p.take(ns) + name + mod_infix() + default_ext()
    }
}

/// Derives the output path for input path `path`.
#[verifier::rlimit(100)]
pub fn derive_output_path(path: &str) -> (out: String)
    ensures
        out@ == derived_path_s(path@),
{
    let p = chars_of(path);
    let mut ns: usize = p.len();
    proof {
        assert(p@.take(p@.len() as int) =~= p@);
    }
    while ns > 0 && p[ns - 1] != '/'
        invariant
            ns <= p.len(),
            p@ == path@,
            name_start(p@) == name_start(p@.take(ns as int)),
        decreases ns,
    {
        proof {
            assert(p@.take(ns as int).drop_last() =~= p@.take(ns - 1));
        }
        ns = ns - 1;
    }
    proof {
        assert(name_start(p@) == ns as int);
    }
    let ghost name = p@.skip(ns as int);
    let nlen = p.len() - ns;
    if (nlen == 1 && p[ns] == '.') || (nlen == 2 && p[ns] == '.' && p[ns + 1] == '.') {
        proof {
            if nlen == 1 {
                assert(name =~= seq!['.']);
            } else {
                assert(name =~= seq!['.', '.']);
            }
        }
        let mut out: Vec<char> = Vec::new();
        push_range(&mut out, &p, 0, ns);
        out.push('_');
        out.push('m');
        out.push('o');
        out.push('d');
        out.push('.');
        out.push('j');
        out.push('s');
        out.push('o');
        out.push('n');
        proof {
            assert(p@.subrange(0, ns as int) =~= p@.take(ns as int));
            assert(out@ =~= derived_path_s(path@));
        }
        return string_from_chars(&out);
    }
    proof {
        assert(name.len() == nlen);
        assert(seq!['.'].len() == 1);
        assert(seq!['.', '.'].len() == 2);
        if nlen == 1 {
            assert(name[0] == p@[ns as int]);
            assert(seq!['.'][0] == '.');
        }
        if nlen == 2 {
            assert(name[0] == p@[ns as int]);
            assert(name[1] == p@[ns + 1]);
            assert(seq!['.', '.'][0] == '.');
            assert(seq!['.', '.'][1] == '.');
        }
        assert(!is_dot_name(name));
    }
    let mut m: usize = p.len() - ns;
    proof {
        assert(name.take(name.len() as int) =~= name);
    }
    while m > 0 && p[ns + m - 1] != '.'
        invariant
            m <= p.len() - ns,
            ns <= p.len(),
            p@ == path@,
            name == p@.skip(ns as int),
            last_dot(name) == last_dot(name.take(m as int)),
        decreases m,
    {
        proof {
            assert(name.take(m as int).drop_last() =~= name.take(m - 1));
            assert(name.take(m as int)[m - 1] == p@[ns + m - 1]);
        }
        m = m - 1;
    }
    proof {
        if m > 0 {
            assert(name.take(m as int)[m - 1] == p@[ns + m - 1]);
        }
        assert(last_dot(name) == (if m > 0 {
            m - 1
        } else {
            -1int
        }));
    }
    let mut out: Vec<char> = Vec::new();
    if m > 1 {
        push_range(&mut out, &p, 0, ns + m - 1);
        out.push('_');
        out.push('m');
        out.push('o');
        out.push('d');
        out.push('.');
        push_range(&mut out, &p, ns + m, p.len());
        proof {
            assert(p@.subrange(0, (ns + m - 1) as int) =~= p@.take(ns as int) + name.take(m - 1));
            assert(p@.subrange((ns + m) as int, p@.len() as int) =~= name.skip(m as int));
            assert(out@ =~= derived_path_s(path@));
        }
    } else {
        push_range(&mut out, &p, 0, p.len());
        out.push('_');
        out.push('m');
        out.push('o');
        out.push('d');
        out.push('.');
        out.push('j');
        out.push('s');
        out.push('o');
        out.push('n');
        proof {
            assert(p@.subrange(0, p@.len() as int) =~= p@.take(ns as int) + name);
            assert(out@ =~= derived_path_s(path@));
        }
    }
    string_from_chars(&out)
}

} // verus!
