//! Escaped JSON string text: the escaping used when a string value is put
//! between double quotes in an event-log line, and the scan that reads it
//! back, with the lemma that scanning undoes escaping.
//!
//! The writer escapes the backslash, the double quote, and the three control
//! characters it can meet (newline, carriage return, tab); every other
//! character is written verbatim.

use vstd::prelude::*;

verus! {

/// The characters the writer escapes.
pub open spec fn needs_escape(c: char) -> bool {
    c == '"' || c == '\\' || c == '\n' || c == '\r' || c == '\t'
}

/// The character standing after the backslash for an escaped character.
pub open spec fn escape_code(c: char) -> char {
    if c == '"' {
        '"'
    } else if c == '\\' {
        '\\'
    } else if c == '\n' {
        'n'
    } else if c == '\r' {
        'r'
    } else {
        't'
    }
}

/// The character an escape code stands for, if it is a valid code.
pub open spec fn unescape_code(c: char) -> Option<char> {
    if c == '"' {
        Some('"')
    } else if c == '\\' {
        Some('\\')
    } else if c == 'n' {
        Some('\n')
    } else if c == 'r' {
        Some('\r')
    } else if c == 't' {
        Some('\t')
    } else {
        None
    }
}

pub open spec fn esc_char(c: char) -> Seq<char> {
    if needs_escape(c) {
        seq!['\\', escape_code(c)]
    } else {
        seq![c]
    }
}

/// The escaped form of a string.
pub open spec fn spec_escape(s: Seq<char>) -> Seq<char>
    decreases s.len(),
{
    if s.len() == 0 {
        Seq::empty()
    } else {
        esc_char(s[0]) + spec_escape(s.drop_first())
    }
}

pub proof fn lemma_escape_push(s: Seq<char>, c: char)
    ensures
        spec_escape(s.push(c)) =~= spec_escape(s) + esc_char(c),
    decreases s.len(),
{
    if s.len() == 0 {
        assert(s.push(c)[0] == c);
        assert(s.push(c).drop_first() =~= Seq::<char>::empty());
        assert(spec_escape(Seq::<char>::empty()) =~= Seq::<char>::empty());
        assert(spec_escape(s.push(c)) =~= esc_char(c) + Seq::<char>::empty());
        assert(esc_char(c) + Seq::<char>::empty() =~= esc_char(c));
        assert(spec_escape(s) + esc_char(c) =~= esc_char(c));
    } else {
        assert(s.push(c)[0] == s[0]);
        assert(s.push(c).drop_first() =~= s.drop_first().push(c));
        lemma_escape_push(s.drop_first(), c);
        assert(esc_char(s[0]) + (spec_escape(s.drop_first()) + esc_char(c)) =~= (esc_char(s[0])
            + spec_escape(s.drop_first())) + esc_char(c));
    }
}

/// Appends the escaped form of `s` to `out`.
pub fn push_escaped(out: &mut Vec<char>, s: &Vec<char>)
    ensures
        final(out)@ == old(out)@ + spec_escape(s@),
{
    let mut i: usize = 0;
    while i < s.len()
        invariant
            i <= s@.len(),
            out@ == old(out)@ + spec_escape(s@.take(i as int)),
        decreases s@.len() - i,
    {
        let c = s[i];
        if c == '"' {
            out.push('\\');
            out.push('"');
        } else if c == '\\' {
            out.push('\\');
            out.push('\\');
        } else if c == '\n' {
            out.push('\\');
            out.push('n');
        } else if c == '\r' {
            out.push('\\');
            out.push('r');
        } else if c == '\t' {
            out.push('\\');
            out.push('t');
        } else {
            out.push(c);
        }
        proof {
            lemma_escape_push(s@.take(i as int), s@[i as int]);
            assert(s@.take((i + 1) as int) =~= s@.take(i as int).push(s@[i as int]));
            assert(out@ =~= old(out)@ + spec_escape(s@.take((i + 1) as int)));
        }
        i += 1;
    }
    proof {
        assert(s@.take(s@.len() as int) =~= s@);
    }
}

/// Scanning an escaped string: reads up to the closing unescaped quote,
/// undoing the escapes; returns the content and what follows the quote.
/// `None` when there is no closing quote or an escape code is invalid.
pub open spec fn spec_scan_string(s: Seq<char>) -> Option<(Seq<char>, Seq<char>)>
    decreases s.len(),
{
    if s.len() == 0 {
        None
    } else if s[0] == '"' {
        Some((Seq::empty(), s.drop_first()))
    } else if s[0] == '\\' {
        if s.len() < 2 {
            None
        } else {
            match unescape_code(s[1]) {
                Some(c) => match spec_scan_string(s.skip(2)) {
                    Some(p) => Some((seq![c] + p.0, p.1)),
                    None => None,
                },
                None => None,
            }
        }
    } else {
        match spec_scan_string(s.drop_first()) {
            Some(p) => Some((seq![s[0]] + p.0, p.1)),
            None => None,
        }
    }
}

/// Scanning undoes escaping: the escaped text, a closing quote, and a tail
/// scan back to the original text and the tail.
pub proof fn lemma_scan_escape(x: Seq<char>, rest: Seq<char>)
    ensures
        spec_scan_string(spec_escape(x) + seq!['"'] + rest) == Some((x, rest)),
    decreases x.len(),
{
    let s = spec_escape(x) + seq!['"'] + rest;
    if x.len() == 0 {
        assert(spec_escape(x) =~= Seq::<char>::empty());
        assert(s[0] == '"');
        assert(s.drop_first() =~= rest);
        assert(spec_scan_string(s) == Some((Seq::<char>::empty(), rest)));
        assert(Seq::<char>::empty() =~= x);
    } else {
        let c = x[0];
        let x1 = x.drop_first();
        lemma_scan_escape(x1, rest);
        let s1 = spec_escape(x1) + seq!['"'] + rest;
        if needs_escape(c) {
            assert(s[0] == '\\');
            assert(s[1] == escape_code(c));
            assert(unescape_code(escape_code(c)) == Some(c));
            assert(s.skip(2) =~= s1);
            assert(seq![c] + x1 =~= x);
        } else {
            assert(s[0] == c);
            assert(c != '"' && c != '\\');
            assert(s.drop_first() =~= s1);
            assert(seq![c] + x1 =~= x);
        }
    }
}

/// Scans an escaped string value in `v` starting at `start`, up to and over
/// the closing quote.
pub fn scan_string(v: &Vec<char>, start: usize) -> (r: Option<(Vec<char>, usize)>)
    requires
        start <= v@.len(),
    ensures
        match r {
            Some(p) => {
                &&& start <= p.1 <= v@.len()
                &&& spec_scan_string(v@.skip(start as int)) == Some((p.0@, v@.skip(p.1 as int)))
            },
            None => spec_scan_string(v@.skip(start as int)) is None,
        },
{
    let n = v.len();
    let mut i: usize = start;
    let mut acc: Vec<char> = Vec::new();
    loop
        invariant
            start <= i <= n,
            n == v@.len(),
            match spec_scan_string(v@.skip(i as int)) {
                Some(p) => spec_scan_string(v@.skip(start as int)) == Some((acc@ + p.0, p.1)),
                None => spec_scan_string(v@.skip(start as int)) is None,
            },
        decreases n - i,
    {
        if i == n {
            proof {
                assert(v@.skip(i as int) =~= Seq::<char>::empty());
            }
            return None;
        }
        let c = v[i];
        proof {
            assert(v@.skip(i as int)[0] == v@[i as int]);
        }
        if c == '"' {
            proof {
                assert(v@.skip(i as int).drop_first() =~= v@.skip((i + 1) as int));
                assert(spec_scan_string(v@.skip(i as int)) == Some(
                    (Seq::<char>::empty(), v@.skip((i + 1) as int)),
                ));
                assert(acc@ + Seq::<char>::empty() =~= acc@);
            }
            return Some((acc, i + 1));
        } else if c == '\\' {
            if i + 1 == n {
                proof {
                    assert(v@.skip(i as int).len() < 2);
                }
                return None;
            }
            let e = v[i + 1];
            proof {
                assert(v@.skip(i as int)[1] == v@[i + 1]);
                assert(v@.skip(i as int).skip(2) =~= v@.skip(i + 2));
            }
            let u: char = if e == '"' {
                '"'
            } else if e == '\\' {
                '\\'
            } else if e == 'n' {
                '\n'
            } else if e == 'r' {
                '\r'
            } else if e == 't' {
                '\t'
            } else {
                proof {
                    assert(unescape_code(v@[i + 1]) is None);
                }
                return None;
            };
            proof {
                assert(unescape_code(v@[i + 1]) == Some(u));
            }
            let ghost old_acc = acc@;
            acc.push(u);
            proof {
                match spec_scan_string(v@.skip(i + 2)) {
                    Some(p) => {
                        assert(spec_scan_string(v@.skip(i as int)) == Some((seq![u] + p.0, p.1)));
                        assert(old_acc + (seq![u] + p.0) =~= acc@ + p.0);
                    },
                    None => {
                        assert(spec_scan_string(v@.skip(i as int)) is None);
                    },
                }
            }
            i += 2;
        } else {
            proof {
                assert(v@.skip(i as int).drop_first() =~= v@.skip((i + 1) as int));
            }
            let ghost old_acc = acc@;
            acc.push(c);
            proof {
                match spec_scan_string(v@.skip(i + 1)) {
                    Some(p) => {
                        assert(spec_scan_string(v@.skip(i as int)) == Some(
                            (seq![v@[i as int]] + p.0, p.1),
                        ));
                        assert(old_acc + (seq![v@[i as int]] + p.0) =~= acc@ + p.0);
                    },
                    None => {
                        assert(spec_scan_string(v@.skip(i as int)) is None);
                    },
                }
            }
            i += 1;
        }
    }
}

} // verus!
