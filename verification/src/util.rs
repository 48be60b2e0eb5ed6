//! Small service helpers: redacting credentials out of connection strings,
//! and a wall-clock millisecond stamp for run identifiers.

use vstd::prelude::*;

use std::time::{SystemTime, UNIX_EPOCH};

verus! {

/// The characters treated as whitespace when splitting a connection string:
/// the Unicode whitespace set.
pub open spec fn is_space(c: char) -> bool {
    c == '\u{09}' || c == '\u{0a}' || c == '\u{0b}' || c == '\u{0c}' || c == '\u{0d}' || c == ' '
        || c == '\u{85}' || c == '\u{a0}' || c == '\u{1680}' || c == '\u{2000}' || c == '\u{2001}'
        || c == '\u{2002}' || c == '\u{2003}' || c == '\u{2004}' || c == '\u{2005}'
        || c == '\u{2006}' || c == '\u{2007}' || c == '\u{2008}' || c == '\u{2009}'
        || c == '\u{200a}' || c == '\u{2028}' || c == '\u{2029}' || c == '\u{202f}'
        || c == '\u{205f}' || c == '\u{3000}'
}

/// Whether `c` is whitespace for the splitter.
fn is_space_char(c: char) -> (b: bool)
    ensures
        b == is_space(c),
{
    c == '\u{09}' || c == '\u{0a}' || c == '\u{0b}' || c == '\u{0c}' || c == '\u{0d}' || c == ' '
        || c == '\u{85}' || c == '\u{a0}' || c == '\u{1680}' || c == '\u{2000}' || c == '\u{2001}'
        || c == '\u{2002}' || c == '\u{2003}' || c == '\u{2004}' || c == '\u{2005}'
        || c == '\u{2006}' || c == '\u{2007}' || c == '\u{2008}' || c == '\u{2009}'
        || c == '\u{200a}' || c == '\u{2028}' || c == '\u{2029}' || c == '\u{202f}'
        || c == '\u{205f}' || c == '\u{3000}'
}

/// Length of the maximal non-whitespace run starting at `i`.
pub open spec fn token_len(s: Seq<char>, i: int) -> nat
    decreases s.len() - i,
    when 0 <= i <= s.len()
{
    if i >= s.len() || is_space(s[i]) {
        0
    } else {
        1 + token_len(s, i + 1)
    }
}

/// A token run stays within the string, and is non-empty exactly where a
/// non-whitespace character starts it.
pub proof fn lemma_token_len_bounds(s: Seq<char>, i: int)
    requires
        0 <= i <= s.len(),
    ensures
        token_len(s, i) <= s.len() - i,
        i < s.len() && !is_space(s[i]) ==> token_len(s, i) >= 1,
    decreases s.len() - i,
{
    if i < s.len() && !is_space(s[i]) {
        lemma_token_len_bounds(s, i + 1);
    }
}

/// The whitespace-separated tokens of `s` from position `i` on.
pub open spec fn split_ws_from(s: Seq<char>, i: int) -> Seq<Seq<char>>
    decreases s.len() - i,
    when 0 <= i <= s.len()
    via split_ws_from_decreases
{
    if i >= s.len() {
        Seq::empty()
    } else if is_space(s[i]) {
        split_ws_from(s, i + 1)
    } else {
        seq![s.subrange(i, i + token_len(s, i))] + split_ws_from(s, i + token_len(s, i))
    }
}

#[via_fn]
proof fn split_ws_from_decreases(s: Seq<char>, i: int) {
    if 0 <= i <= s.len() && i < s.len() && !is_space(s[i]) {
        lemma_token_len_bounds(s, i);
    }
}

/// Whether `c` may stand at position `j` of a `password=` prefix, matching
/// the letter in either ASCII case.
pub open spec fn pwd_pos_ok(j: int, c: char) -> bool {
    if j == 0 {
        c == 'p' || c == 'P'
    } else if j == 1 {
        c == 'a' || c == 'A'
    } else if j == 2 || j == 3 {
        c == 's' || c == 'S'
    } else if j == 4 {
        c == 'w' || c == 'W'
    } else if j == 5 {
        c == 'o' || c == 'O'
    } else if j == 6 {
        c == 'r' || c == 'R'
    } else if j == 7 {
        c == 'd' || c == 'D'
    } else {
        c == '='
    }
}

/// A token that begins with `password=`, matching the letters in either
/// ASCII case: its remainder is a secret and must not be echoed.
pub open spec fn is_password_token(t: Seq<char>) -> bool {
    t.len() >= 9 && forall|j: int| 0 <= j < 9 ==> pwd_pos_ok(j, t[j])
}

/// The replacement written in place of a password token.
pub open spec fn pwd_mask() -> Seq<char> {
    seq!['p', 'a', 's', 's', 'w', 'o', 'r', 'd', '=', '*', '*', '*']
}

/// A token after redaction: masked when it carries a password, itself
/// otherwise.
pub open spec fn redact_token(t: Seq<char>) -> Seq<char> {
    if is_password_token(t) {
        pwd_mask()
    } else {
        t
    }
}

/// The redacted tokens joined with single spaces.
pub open spec fn redacted_join(ts: Seq<Seq<char>>) -> Seq<char>
    decreases ts.len(),
{
    if ts.len() == 0 {
        Seq::empty()
    } else if ts.len() == 1 {
        redact_token(ts[0])
    } else {
        redact_token(ts[0]) + seq![' '] + redacted_join(ts.drop_first())
    }
}

/// What `redact_conn_str` returns: the input's whitespace-separated tokens,
/// each password token masked, joined with single spaces.
pub open spec fn redact_spec(s: Seq<char>) -> Seq<char> {
    redacted_join(split_ws_from(s, 0))
}

/// Every token the splitter produces is non-empty.
proof fn lemma_split_tokens_nonempty(s: Seq<char>, i: int)
    requires
        0 <= i <= s.len(),
    ensures
        forall|k: int|
            0 <= k < split_ws_from(s, i).len() ==> (#[trigger] split_ws_from(s, i)[k]).len() >= 1,
    decreases s.len() - i,
{
    if i >= s.len() {
    } else if is_space(s[i]) {
        lemma_split_tokens_nonempty(s, i + 1);
        assert(split_ws_from(s, i) == split_ws_from(s, i + 1));
        assert forall|k: int|
            0 <= k < split_ws_from(s, i).len() implies (#[trigger] split_ws_from(s, i)[k]).len()
            >= 1 by {
            assert(split_ws_from(s, i)[k] == split_ws_from(s, i + 1)[k]);
        }
    } else {
        lemma_token_len_bounds(s, i);
        let tl = token_len(s, i);
        lemma_split_tokens_nonempty(s, i + tl);
        assert(split_ws_from(s, i) == seq![s.subrange(i, i + tl)] + split_ws_from(s, i + tl));
        assert forall|k: int|
            0 <= k < split_ws_from(s, i).len() implies (#[trigger] split_ws_from(s, i)[k]).len()
            >= 1 by {
            if k == 0 {
                assert(split_ws_from(s, i)[0] == s.subrange(i, i + tl));
                assert(s.subrange(i, i + tl).len() == tl);
            } else {
                assert(split_ws_from(s, i)[k] == split_ws_from(s, i + tl)[k - 1]);
            }
        }
    }
}

/// The join of non-empty tokens is empty exactly when there are none.
proof fn lemma_join_empty(ts: Seq<Seq<char>>)
    requires
        forall|k: int| 0 <= k < ts.len() ==> (#[trigger] ts[k]).len() >= 1,
    ensures
        redacted_join(ts).len() == 0 <==> ts.len() == 0,
{
    if ts.len() >= 1 {
        assert(redact_token(ts[0]).len() >= 1);
    }
}

/// Whether the `jj`-th character of a candidate prefix fits `password=`.
fn pwd_pos_match(jj: usize, c: char) -> (b: bool)
    requires
        jj < 9,
    ensures
        b == pwd_pos_ok(jj as int, c),
{
    if jj == 0 {
        c == 'p' || c == 'P'
    } else if jj == 1 {
        c == 'a' || c == 'A'
    } else if jj == 2 || jj == 3 {
        c == 's' || c == 'S'
    } else if jj == 4 {
        c == 'w' || c == 'W'
    } else if jj == 5 {
        c == 'o' || c == 'O'
    } else if jj == 6 {
        c == 'r' || c == 'R'
    } else if jj == 7 {
        c == 'd' || c == 'D'
    } else {
        c == '='
    }
}

/// Redact the tokens of `s` from character position `i` on and join them
/// with single spaces.
fn redact_from(s: &str, i: usize) -> (r: String)
    requires
        i <= s@.len(),
    ensures
        r@ == redacted_join(split_ws_from(s@, i as int)),
    decreases s@.len() - i,
{
    let n = s.unicode_len();
    if i >= n {
        return String::new();
    }
    let c = s.get_char(i);
    if is_space_char(c) {
        return redact_from(s, i + 1);
    }

    // Find the end of the token.
    proof {
        lemma_token_len_bounds(s@, i as int);
    }
    let mut j: usize = i;
    while j < n && !is_space_char(s.get_char(j))
        invariant
            i <= j <= n,
            n == s@.len(),
            token_len(s@, i as int) == (j - i) + token_len(s@, j as int),
        decreases n - j,
    {
        proof {
            lemma_token_len_bounds(s@, j as int + 1);
        }
        j += 1;
    }
    assert(token_len(s@, j as int) == 0);
    assert(token_len(s@, i as int) == j - i);
    let ghost tok = s@.subrange(i as int, i as int + token_len(s@, i as int));

    // Does the token begin with `password=`, in either case?
    let mut masked: bool;
    if j - i >= 9 {
        masked = true;
        let mut jj: usize = 0;
        while jj < 9
            invariant_except_break
                jj <= 9,
                masked,
                i <= j <= n,
                n == s@.len(),
                j - i >= 9,
                tok == s@.subrange(i as int, j as int),
                tok.len() == j - i,
                forall|k: int| 0 <= k < jj ==> pwd_pos_ok(k, tok[k]),
            ensures
                masked == is_password_token(tok),
            decreases 9 - jj,
        {
            proof {
                assert(tok[jj as int] == s@[i + jj as int]);
            }
            if pwd_pos_match(jj, s.get_char(i + jj)) {
                jj += 1;
                if jj == 9 {
                    assert(is_password_token(tok));
                    break;
                }
            } else {
                masked = false;
                assert(!is_password_token(tok));
                break;
            }
        }
    } else {
        masked = false;
        assert(tok.len() < 9);
        assert(!is_password_token(tok));
    }

    let mut out: String;
    if masked {
        out = String::from_str("password=***");
        proof {
            reveal_strlit("password=***");
            assert(out@ =~= pwd_mask());
        }
    } else {
        let piece = s.substring_char(i, j);
        out = piece.to_owned();
    }
    assert(out@ == redact_token(tok));

    let rest = redact_from(s, j);
    proof {
        lemma_split_tokens_nonempty(s@, j as int);
        lemma_join_empty(split_ws_from(s@, j as int));
    }
    if rest.as_str().unicode_len() > 0 {
        out.append(" ");
        proof {
            reveal_strlit(" ");
        }
        out.append(rest.as_str());
        proof {
            assert(split_ws_from(s@, i as int).drop_first() =~= split_ws_from(s@, j as int));
            assert(split_ws_from(s@, i as int)[0] == tok);
        }
    } else {
        proof {
            assert(split_ws_from(s@, j as int).len() == 0);
            assert(split_ws_from(s@, i as int) =~= seq![tok]);
        }
    }
    out
}

/// Rewrite a connection string so it can be logged: split it on whitespace,
/// replace every `password=`-prefixed token (letters matched in either ASCII
/// case) with `password=***`, and join the tokens with single spaces.
pub fn redact_conn_str(s: &str) -> (r: String)
    ensures
        r@ == redact_spec(s@),
{
    redact_from(s, 0)
}

/// Milliseconds since the Unix epoch by the system clock, or zero when the
/// clock reads earlier than the epoch. Used as identifier material for run
/// names; the value depends on the wall clock, so nothing is promised of it.
///
/// Relies on std::time::SystemTime::now and the conversion of the elapsed
/// span to milliseconds.
#[verifier::external_body]
pub fn chronoish_now_millis() -> u128 {
    SystemTime::now().duration_since(UNIX_EPOCH).unwrap_or_default().as_millis()
}

} // verus!
