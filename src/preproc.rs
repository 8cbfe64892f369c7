use vstd::prelude::*;

verus! {

/// Source text with every line comment (`//` up to the end of its line) removed; the line
/// break that ends a comment stays.
pub open spec fn strip(s: Seq<char>) -> Seq<char>
    decreases s.len(), 1nat,
{
    if s.len() == 0 {
        Seq::empty()
    } else if s.len() > 1 && s[0] == '/' && s[1] == '/' {
        skip_comment(s.subrange(2, s.len() as int))
    } else {
        seq![s[0]] + strip(s.subrange(1, s.len() as int))
    }
}

/// The rest of the text after a comment has begun.
pub open spec fn skip_comment(s: Seq<char>) -> Seq<char>
    decreases s.len(), 0nat,
{
    if s.len() == 0 {
        Seq::empty()
    } else if s[0] == '\n' {
        seq!['\n'] + strip(s.subrange(1, s.len() as int))
    } else {
        skip_comment(s.subrange(1, s.len() as int))
    }
}

/// Relies on `String::push`: the character is appended.
#[verifier::external_body]
fn push_char(s: &mut String, c: char)
    ensures
        final(s)@ == old(s)@.push(c),
{
    s.push(c)
}

/// Removes line comments from source text.
pub fn preprocess(source: String) -> (r: String)
    ensures
        r@ == strip(source@),
{
    let src = source.as_str();
    let n = src.unicode_len();
    let ghost s = source@;
    let mut ret = String::new();
    let mut in_comment = false;
    let mut i: usize = 0;
    proof {
        assert(s.subrange(0, s.len() as int) =~= s);
        assert(ret@ + strip(s) =~= strip(s));
    }
    while i < n
        invariant
            n == s.len(),
            src@ == s,
            i <= n,
            strip(s) == ret@ + if in_comment {
                skip_comment(s.subrange(i as int, n as int))
            } else {
                strip(s.subrange(i as int, n as int))
            },
        decreases n - i,
    {
        let ghost rest = s.subrange(i as int, n as int);
        let c = src.get_char(i);
        proof {
            assert(rest[0] == c);
            assert(rest.subrange(1, rest.len() as int) =~= s.subrange(i + 1, n as int));
        }
        if in_comment {
            if c == '\n' {
                let ghost before = ret@;
                push_char(&mut ret, c);
                in_comment = false;
                proof {
                    assert(before + (seq!['\n'] + strip(s.subrange(i + 1, n as int))) =~= ret@ + strip(
                        s.subrange(i + 1, n as int),
                    ));
                }
            }
            i += 1;
        } else if c == '/' && i + 1 < n && src.get_char(i + 1) == '/' {
            proof {
                assert(rest[1] == s[i + 1]);
                assert(rest.subrange(2, rest.len() as int) =~= s.subrange(i + 2, n as int));
            }
            in_comment = true;
            i += 2;
        } else {
            proof {
                if c == '/' && rest.len() > 1 {
                    assert(rest[1] == s[i + 1]);
                }
            }
            let ghost before = ret@;
            push_char(&mut ret, c);
            proof {
                assert(before + (seq![c] + strip(s.subrange(i + 1, n as int))) =~= ret@ + strip(
                    s.subrange(i + 1, n as int),
                ));
            }
            i += 1;
        }
    }
    proof {
        assert(s.subrange(i as int, n as int).len() == 0);
        assert(ret@ + Seq::<char>::empty() =~= ret@);
    }
    ret
}

} // verus!
