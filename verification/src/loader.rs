//! The ROM-image loader: parses a line-oriented source text into a byte
//! image. A line whose first character is `/` is a comment and contributes
//! nothing; all other text is tokenized on whitespace, and each token that is
//! a binary literal with a value below 256 contributes one byte, in order.
//! Tokens that fail to parse are silently skipped.

use vstd::prelude::*;
use vstd::string::StrSliceExecFns;

verus! {

/// The whitespace characters tokens are split on (the ASCII ones; `\n` also
/// ends a line).
pub open spec fn is_space(c: char) -> bool {
    c == ' ' || c == '\t' || c == '\n' || c == '\r' || c == '\u{b}' || c == '\u{c}'
}

/// A binary digit.
pub open spec fn is_bin_digit(c: char) -> bool {
    c == '0' || c == '1'
}

/// The value of a string of binary digits, most significant first.
pub open spec fn bin_val(t: Seq<char>) -> int
    decreases t.len(),
{
    if t.len() == 0 {
        0
    } else {
        2 * bin_val(t.drop_last()) + if t.last() == '1' {
            1int
        } else {
            0int
        }
    }
}

/// A token that contributes a byte: nonempty, all binary digits, and a value
/// that fits in 8 bits (leading zeroes are allowed).
pub open spec fn is_valid_token(t: Seq<char>) -> bool {
    &&& t.len() > 0
    &&& forall|i: int| 0 <= i < t.len() ==> is_bin_digit(#[trigger] t[i])
    &&& bin_val(t) < 256
}

/// The bytes a finished token contributes: one byte if it is a valid binary
/// literal, none otherwise.
pub open spec fn token_bytes(t: Seq<char>) -> Seq<u8> {
    if is_valid_token(t) {
        seq![bin_val(t) as u8]
    } else {
        Seq::empty()
    }
}

/// One pass over the source, character by character. `bol` says the next
/// character begins a line, `com` says the current line is a comment, and
/// `cur` holds the characters of the token being read. A newline or a space
/// finishes the current token; a `/` at the beginning of a line discards the
/// rest of that line.
pub open spec fn scan(s: Seq<char>, bol: bool, com: bool, cur: Seq<char>) -> Seq<u8>
    decreases s.len(),
{
    if s.len() == 0 {
        token_bytes(cur)
    } else {
        let c = s[0];
        let rest = s.drop_first();
        if c == '\n' {
            token_bytes(cur) + scan(rest, true, false, Seq::empty())
        } else if com || (bol && c == '/') {
            scan(rest, false, true, Seq::empty())
        } else if is_space(c) {
            token_bytes(cur) + scan(rest, false, false, Seq::empty())
        } else {
            scan(rest, false, false, cur.push(c))
        }
    }
}

/// The program image a source text denotes.
pub open spec fn image_of(s: Seq<char>) -> Seq<u8> {
    scan(s, true, false, Seq::empty())
}

/// In a comment line, every character up to the closing newline is
/// discarded: scanning it lands in the same place as starting fresh on the
/// text after the newline.
proof fn lemma_comment_skips(l: Seq<char>, rest: Seq<char>)
    requires
        forall|i: int| 0 <= i < l.len() ==> l[i] != '\n',
    ensures
        scan(l + seq!['\n'] + rest, false, true, Seq::empty()) == scan(rest, true, false, Seq::empty()),
    decreases l.len(),
{
    let whole = l + seq!['\n'] + rest;
    if l.len() == 0 {
        assert(whole =~= seq!['\n'] + rest);
        assert(whole[0] == '\n');
        assert(whole.drop_first() =~= rest);
        assert(token_bytes(Seq::empty()) + scan(rest, true, false, Seq::empty()) =~= scan(
            rest,
            true,
            false,
            Seq::empty(),
        ));
    } else {
        assert(whole[0] == l[0]);
        assert(whole[0] != '\n');
        assert(whole.drop_first() =~= l.drop_first() + seq!['\n'] + rest);
        lemma_comment_skips(l.drop_first(), rest);
    }
}

/// A line whose first character is `/` is a full-line comment: whatever
/// follows that `/` up to the newline, the line contributes zero bytes to
/// the image.
pub proof fn lemma_comment_line_contributes_nothing(l: Seq<char>, rest: Seq<char>)
    requires
        forall|i: int| 0 <= i < l.len() ==> l[i] != '\n',
    ensures
        image_of(seq!['/'] + l + seq!['\n'] + rest) == image_of(rest),
{
    let whole = seq!['/'] + l + seq!['\n'] + rest;
    assert(whole[0] == '/');
    assert(whole.drop_first() =~= l + seq!['\n'] + rest);
    lemma_comment_skips(l, rest);
}

fn is_space_char(c: char) -> (r: bool)
    ensures
        r == is_space(c),
{
    c == ' ' || c == '\t' || c == '\n' || c == '\r' || c == '\u{b}' || c == '\u{c}'
}

/// The running summary of the token being read: its length, whether every
/// character so far was a binary digit, and its value capped at 256 (the
/// value only grows as digits are appended, so the cap is sticky).
spec fn token_summary(cur: Seq<char>, cur_len: usize, cur_ok: bool, cur_val: u16) -> bool {
    &&& cur_len == cur.len()
    &&& cur_ok == (forall|j: int| 0 <= j < cur.len() ==> is_bin_digit(#[trigger] cur[j]))
    &&& if bin_val(cur) < 256 {
        cur_val == bin_val(cur)
    } else {
        cur_val == 256
    }
}

/// Append the byte the finished token denotes, if it denotes one.
fn emit_token(ret: &mut Vec<u8>, cur_len: usize, cur_ok: bool, cur_val: u16, cur: Ghost<
    Seq<char>,
>)
    requires
        token_summary(cur@, cur_len, cur_ok, cur_val),
    ensures
        final(ret)@ == old(ret)@ + token_bytes(cur@),
{
    if cur_len > 0 && cur_ok && cur_val < 256 {
        proof {
            assert(is_valid_token(cur@));
        }
        ret.push(cur_val as u8);
        proof {
            assert(final(ret)@ =~= old(ret)@ + token_bytes(cur@));
        }
    } else {
        proof {
            assert(!is_valid_token(cur@));
            assert(final(ret)@ =~= old(ret)@ + token_bytes(cur@));
        }
    }
}

/// Parse a source text into the program image it denotes: comment lines
/// (first character `/`) contribute nothing, every other token that is a
/// binary literal below 256 contributes its byte, in source order, and every
/// other token is silently skipped.
pub fn load_bin_file(contents: String) -> (ret: Vec<u8>)
    ensures
        ret@ == image_of(contents@),
{
    let s = contents.as_str();
    let n = s.unicode_len();
    let mut ret: Vec<u8> = Vec::new();
    let mut i: usize = 0;
    let mut bol: bool = true;
    let mut com: bool = false;
    let mut cur_len: usize = 0;
    let mut cur_ok: bool = true;
    let mut cur_val: u16 = 0;
    let ghost mut cur: Seq<char> = Seq::empty();
    proof {
        assert(s@.skip(0) =~= s@);
        assert(ret@ + scan(s@, true, false, Seq::empty()) =~= scan(s@, true, false, Seq::empty()));
    }
    while i < n
        invariant
            n == s@.len(),
            s@ == contents@,
            i <= n,
            cur_len <= i,
            token_summary(cur, cur_len, cur_ok, cur_val),
            image_of(contents@) == ret@ + scan(s@.skip(i as int), bol, com, cur),
            com ==> cur.len() == 0,
            bol ==> cur.len() == 0,
        decreases n - i,
    {
        let c = s.get_char(i);
        proof {
            let rest = s@.skip(i as int);
            assert(rest.len() > 0);
            assert(rest[0] == c);
            assert(rest.drop_first() =~= s@.skip(i as int + 1));
        }
        if c == '\n' {
            proof {
                assert(scan(s@.skip(i as int), bol, com, cur) == token_bytes(cur) + scan(
                    s@.skip(i as int + 1),
                    true,
                    false,
                    Seq::empty(),
                ));
            }
            emit_token(&mut ret, cur_len, cur_ok, cur_val, Ghost(cur));
            bol = true;
            com = false;
            cur_len = 0;
            cur_ok = true;
            cur_val = 0;
            proof {
                cur = Seq::empty();
            }
        } else if com || (bol && c == '/') {
            proof {
                assert(scan(s@.skip(i as int), bol, com, cur) == scan(
                    s@.skip(i as int + 1),
                    false,
                    true,
                    Seq::empty(),
                ));
            }
            com = true;
            bol = false;
            cur_len = 0;
            cur_ok = true;
            cur_val = 0;
            proof {
                cur = Seq::empty();
            }
        } else if is_space_char(c) {
            proof {
                assert(scan(s@.skip(i as int), bol, com, cur) == token_bytes(cur) + scan(
                    s@.skip(i as int + 1),
                    false,
                    false,
                    Seq::empty(),
                ));
            }
            emit_token(&mut ret, cur_len, cur_ok, cur_val, Ghost(cur));
            bol = false;
            cur_len = 0;
            cur_ok = true;
            cur_val = 0;
            proof {
                cur = Seq::empty();
            }
        } else {
            proof {
                assert(scan(s@.skip(i as int), bol, com, cur) == scan(
                    s@.skip(i as int + 1),
                    false,
                    false,
                    cur.push(c),
                ));
                assert(cur.push(c).drop_last() =~= cur);
                assert(cur.push(c).last() == c);
            }
            let d: u16 = if c == '1' {
                1
            } else {
                0
            };
            let nv: u16 = 2 * cur_val + d;
            cur_val = if nv >= 256 {
                256
            } else {
                nv
            };
            cur_ok = cur_ok && (c == '0' || c == '1');
            cur_len = cur_len + 1;
            bol = false;
            proof {
                cur = cur.push(c);
            }
        }
        i = i + 1;
    }
    proof {
        assert(s@.skip(n as int) =~= Seq::<char>::empty());
        assert(scan(s@.skip(n as int), bol, com, cur) == token_bytes(cur));
    }
    emit_token(&mut ret, cur_len, cur_ok, cur_val, Ghost(cur));
    ret
}

} // verus!
