//! Sanitization of client-supplied file names, and file-name helpers.
//!
//! A client name is made safe for filesystem use by first dropping the path
//! separators `/` and `\` and then deleting `..` occurrences, leftmost first
//! and without overlap. The result provably contains neither a separator nor
//! a `..` sequence, so a derived workspace or destination path cannot escape
//! its root.

use vstd::prelude::*;
use vstd::string::StrSliceExecFns;

verus! {

/// Whether `c` is one of the path separators that sanitization drops.
pub open spec fn is_separator(c: char) -> bool {
    c == '/' || c == '\\'
}

/// `s` with every path separator removed.
pub open spec fn strip_separators(s: Seq<char>) -> Seq<char>
    decreases s.len(),
{
    if s.len() == 0 {
        Seq::empty()
    } else if is_separator(s.last()) {
        strip_separators(s.drop_last())
    } else {
        strip_separators(s.drop_last()).push(s.last())
    }
}

/// `s` with every `..` occurrence deleted, scanning left to right without
/// overlap: the semantics of replacing `..` by the empty string.
pub open spec fn remove_dotdot(s: Seq<char>) -> Seq<char>
    decreases s.len(),
{
    if s.len() >= 2 && s[0] == '.' && s[1] == '.' {
        remove_dotdot(s.skip(2))
    } else if s.len() == 0 {
        Seq::empty()
    } else {
        seq![s[0]] + remove_dotdot(s.skip(1))
    }
}

/// The sanitized form of a client-supplied file name.
pub open spec fn sanitize_spec(s: Seq<char>) -> Seq<char> {
    remove_dotdot(strip_separators(s))
}

/// The part of `s` after its last `.`; all of `s` when it holds no `.`.
/// Used as the format hint when probing an assembled file.
pub open spec fn extension_spec(s: Seq<char>) -> Seq<char>
    decreases s.len(),
{
    if s.len() == 0 {
        Seq::empty()
    } else if s.last() == '.' {
        Seq::empty()
    } else {
        extension_spec(s.drop_last()).push(s.last())
    }
}

/// Relies on String::push: appends the given character to the end of the string.
#[verifier::external_body]
fn push_char(s: &mut String, c: char)
    ensures
        final(s)@ == old(s)@.push(c),
{
    s.push(c);
}

/// Strip `/` and `\` and delete `..` occurrences from a client-supplied name.
pub fn sanitize_filename(filename: &str) -> (r: String)
    ensures
        r@ == sanitize_spec(filename@),
{
    let n = filename.unicode_len();
    let mut kept: Vec<char> = Vec::new();
    for i in 0..n
        invariant
            n == filename@.len(),
            kept@ == strip_separators(filename@.subrange(0, i as int)),
    {
        let c = filename.get_char(i);
        proof {
            assert(filename@.subrange(0, i + 1).drop_last() =~= filename@.subrange(0, i as int));
            assert(filename@.subrange(0, i + 1).last() == filename@[i as int]);
        }
        if c != '/' && c != '\\' {
            kept.push(c);
        }
    }
    proof {
        assert(filename@.subrange(0, n as int) =~= filename@);
    }
    let mut out = String::new();
    let mut i: usize = 0;
    proof {
        assert(kept@.skip(0) =~= kept@);
        assert(Seq::<char>::empty() + remove_dotdot(kept@) =~= remove_dotdot(kept@));
    }
    while i < kept.len()
        invariant
            i <= kept@.len(),
            remove_dotdot(kept@) == out@ + remove_dotdot(kept@.skip(i as int)),
        decreases kept@.len() - i,
    {
        let more = i + 1 < kept.len();
        if more && kept[i] == '.' && kept[i + 1] == '.' {
            proof {
                assert(kept@.skip(i as int).skip(2) =~= kept@.skip(i as int + 2));
            }
            i = i + 2;
        } else {
            let c = kept[i];
            proof {
                let rest = kept@.skip(i as int);
                assert(rest[0] == kept@[i as int]);
                assert(!(rest.len() >= 2 && rest[0] == '.' && rest[1] == '.'));
                assert(rest.skip(1) =~= kept@.skip(i as int + 1));
                assert(remove_dotdot(rest) == seq![c] + remove_dotdot(kept@.skip(i as int + 1)));
                assert(out@ + remove_dotdot(rest) == out@.push(c) + remove_dotdot(
                    kept@.skip(i as int + 1),
                ));
            }
            push_char(&mut out, c);
            i = i + 1;
        }
    }
    proof {
        assert(kept@.skip(kept@.len() as int) =~= Seq::<char>::empty());
        assert(out@ + Seq::<char>::empty() =~= out@);
    }
    out
}

/// The characters after the last `.` of `name`; all of `name` if it has none.
pub fn extension_of(name: &str) -> (r: String)
    ensures
        r@ == extension_spec(name@),
{
    let n = name.unicode_len();
    let mut out = String::new();
    for i in 0..n
        invariant
            n == name@.len(),
            out@ == extension_spec(name@.subrange(0, i as int)),
    {
        let c = name.get_char(i);
        proof {
            assert(name@.subrange(0, i + 1).drop_last() =~= name@.subrange(0, i as int));
            assert(name@.subrange(0, i + 1).last() == name@[i as int]);
        }
        if c == '.' {
            out = String::new();
        } else {
            push_char(&mut out, c);
        }
    }
    proof {
        assert(name@.subrange(0, n as int) =~= name@);
    }
    out
}

/// Every character of `remove_dotdot(s)` already occurs in `s`-like positions:
/// a predicate true of all of `s` is true of all of the result.
proof fn lemma_remove_dotdot_chars(s: Seq<char>, p: spec_fn(char) -> bool)
    requires
        forall|i: int| 0 <= i < s.len() ==> p(s[i]),
    ensures
        forall|i: int| 0 <= i < remove_dotdot(s).len() ==> p(remove_dotdot(s)[i]),
    decreases s.len(),
{
    if s.len() >= 2 && s[0] == '.' && s[1] == '.' {
        assert(forall|i: int| 0 <= i < s.skip(2).len() ==> p(s.skip(2)[i]));
        lemma_remove_dotdot_chars(s.skip(2), p);
        assert forall|i: int| 0 <= i < remove_dotdot(s).len() implies p(
            remove_dotdot(s)[i],
        ) by {
            assert(remove_dotdot(s) == remove_dotdot(s.skip(2)));
            assert(remove_dotdot(s)[i] == remove_dotdot(s.skip(2))[i]);
        }
    } else if s.len() > 0 {
        assert(forall|i: int| 0 <= i < s.skip(1).len() ==> p(s.skip(1)[i]));
        lemma_remove_dotdot_chars(s.skip(1), p);
        assert(forall|i: int|
            0 <= i < remove_dotdot(s).len() ==> p(
                #[trigger] remove_dotdot(s)[i],
            )) by {
            assert forall|i: int| 0 <= i < remove_dotdot(s).len() implies p(
                #[trigger] remove_dotdot(s)[i],
            ) by {
                if i == 0 {
                    assert(remove_dotdot(s)[0] == s[0]);
                } else {
                    assert(remove_dotdot(s)[i] == remove_dotdot(s.skip(1))[i - 1]);
                }
            }
        }
    }
}

/// When `s` does not begin with `..`, deletion keeps its first character.
proof fn lemma_remove_dotdot_first(s: Seq<char>)
    requires
        s.len() > 0,
        !(s.len() >= 2 && s[0] == '.' && s[1] == '.'),
    ensures
        remove_dotdot(s).len() > 0,
        remove_dotdot(s)[0] == s[0],
{
}

/// `remove_dotdot` leaves no `..` behind: adjacent surviving dots would have
/// had to be adjacent in the input, where they would have been deleted.
proof fn lemma_remove_dotdot_no_dotdot(s: Seq<char>)
    ensures
        forall|i: int|
            0 <= i && i + 1 < remove_dotdot(s).len() ==> !(#[trigger] remove_dotdot(s)[i] == '.'
                && remove_dotdot(s)[i + 1] == '.'),
    decreases s.len(),
{
    if s.len() >= 2 && s[0] == '.' && s[1] == '.' {
        lemma_remove_dotdot_no_dotdot(s.skip(2));
        assert forall|i: int|
            0 <= i && i + 1 < remove_dotdot(s).len() implies !(#[trigger] remove_dotdot(s)[i]
            == '.' && remove_dotdot(s)[i + 1] == '.') by {
            assert(remove_dotdot(s) == remove_dotdot(s.skip(2)));
            assert(remove_dotdot(s)[i] == remove_dotdot(s.skip(2))[i]);
            assert(remove_dotdot(s)[i + 1] == remove_dotdot(s.skip(2))[i + 1]);
        }
    } else if s.len() > 0 {
        let rest = remove_dotdot(s.skip(1));
        lemma_remove_dotdot_no_dotdot(s.skip(1));
        assert forall|i: int|
            0 <= i && i + 1 < remove_dotdot(s).len() implies !(#[trigger] remove_dotdot(s)[i]
            == '.' && remove_dotdot(s)[i + 1] == '.') by {
            if i == 0 {
                assert(remove_dotdot(s)[0] == s[0]);
                if s[0] == '.' {
                    // The next input character is not a dot, and it survives
                    // as the head of the remainder.
                    assert(s.len() >= 2 && s[1] != '.');
                    assert(s.skip(1).len() > 0 && s.skip(1)[0] == s[1]);
                    lemma_remove_dotdot_first(s.skip(1));
                    assert(remove_dotdot(s)[1] == rest[0]);
                }
            } else {
                assert(remove_dotdot(s)[i] == rest[i - 1]);
                assert(remove_dotdot(s)[i + 1] == rest[i]);
            }
        }
    }
}

/// The sanitized form of any client name contains no path separator and no
/// `..` sequence, so paths derived from it stay within their root directory.
pub proof fn lemma_sanitized_name_safe(raw: Seq<char>)
    ensures
        forall|i: int|
            0 <= i < sanitize_spec(raw).len() ==> !is_separator(#[trigger] sanitize_spec(raw)[i]),
        forall|i: int|
            0 <= i && i + 1 < sanitize_spec(raw).len() ==> !(#[trigger] sanitize_spec(raw)[i] == '.'
                && sanitize_spec(raw)[i + 1] == '.'),
{
    lemma_strip_separators_clean(raw);
    lemma_remove_dotdot_chars(strip_separators(raw), |c: char| !is_separator(c));
    lemma_remove_dotdot_no_dotdot(strip_separators(raw));
}

/// `strip_separators` removes every separator.
proof fn lemma_strip_separators_clean(s: Seq<char>)
    ensures
        forall|i: int|
            0 <= i < strip_separators(s).len() ==> !is_separator(#[trigger] strip_separators(s)[i]),
    decreases s.len(),
{
    if s.len() > 0 {
        lemma_strip_separators_clean(s.drop_last());
        let r = strip_separators(s);
        let r0 = strip_separators(s.drop_last());
        assert forall|i: int| 0 <= i < r.len() implies !is_separator(#[trigger] r[i]) by {
            if !is_separator(s.last()) {
                if i < r.len() - 1 {
                    assert(r[i] == r0[i]);
                } else {
                    assert(r[i] == s.last());
                }
            }
        }
    }
}

} // verus!
