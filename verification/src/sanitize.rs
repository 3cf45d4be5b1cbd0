//! Sanitizing of model responses that wrap JSON in a fenced code block.
use vstd::prelude::*;

verus! {

/// `s` with every non-overlapping occurrence of `pat` removed, scanning
/// left to right, as `str::replace` with an empty replacement would.
pub open spec fn strip_occurrences(s: Seq<char>, pat: Seq<char>) -> Seq<char>
    decreases s.len(),
{
    if s.len() == 0 {
        Seq::empty()
    } else if pat.len() > 0 && s.len() >= pat.len() && s.take(pat.len() as int) == pat {
        strip_occurrences(s.skip(pat.len() as int), pat)
    } else {
        seq![s[0]] + strip_occurrences(s.skip(1), pat)
    }
}

/// Whether `pat` occurs in `s` at character position `i`.
fn starts_with_at(s: &str, pat: &str, i: usize) -> (r: bool)
    requires
        i <= s@.len(),
    ensures
        r <==> (i + pat@.len() <= s@.len() && s@.subrange(
            i as int,
            i + pat@.len(),
        ) == pat@),
{
    let n = s.unicode_len();
    let m = pat.unicode_len();
    if n - i < m {
        assert(i + pat@.len() > s@.len());
        return false;
    }
    let mut j: usize = 0;
    while j < m
        invariant
            j <= m,
            i + m <= n,
            n == s@.len(),
            m == pat@.len(),
            forall|k: int| 0 <= k < j ==> s@[i + k] == pat@[k],
        decreases m - j,
    {
        if s.get_char(i + j) != pat.get_char(j) {
            assert(s@.subrange(i as int, i + pat@.len())[j as int] != pat@[j as int]);
            return false;
        }
        j += 1;
    }
    assert(s@.subrange(i as int, i + pat@.len()) =~= pat@);
    true
}

/// Removes every non-overlapping occurrence of `pat` from `s`, scanning
/// left to right.
fn strip_pattern(s: &str, pat: &str) -> (r: String)
    requires
        pat@.len() >= 1,
    ensures
        r@ == strip_occurrences(s@, pat@),
{
    let mut out = String::new();
    let n = s.unicode_len();
    let m = pat.unicode_len();
    let mut i: usize = 0;
    proof {
        assert(s@.skip(0) =~= s@);
        assert(out@ + strip_occurrences(s@, pat@) =~= strip_occurrences(s@, pat@));
    }
    while i < n
        invariant
            i <= n,
            n == s@.len(),
            m == pat@.len(),
            m >= 1,
            out@ + strip_occurrences(s@.skip(i as int), pat@) == strip_occurrences(s@, pat@),
        decreases n - i,
    {
        let ghost rest = s@.skip(i as int);
        assert(rest.len() == n - i);
        if starts_with_at(s, pat, i) {
            proof {
                assert(rest.take(m as int) =~= s@.subrange(i as int, i + m));
                assert(rest.skip(m as int) =~= s@.skip(i + m));
            }
            i += m;
        } else {
            let piece = s.substring_char(i, i + 1);
            out.append(piece);
            proof {
                if rest.len() >= m {
                    assert(rest.take(m as int) =~= s@.subrange(i as int, i + m));
                    assert(rest.take(m as int) != pat@);
                }
                assert(rest[0] == s@[i as int]);
                assert(piece@ =~= seq![s@[i as int]]);
                assert(rest.skip(1) =~= s@.skip(i + 1));
                assert(strip_occurrences(rest, pat@) == seq![s@[i as int]] + strip_occurrences(
                    s@.skip(i + 1),
                    pat@,
                ));
            }
            i += 1;
        }
    }
    proof {
        assert(s@.skip(n as int) =~= Seq::<char>::empty());
        assert(out@ + strip_occurrences(s@.skip(n as int), pat@) =~= out@);
    }
    out
}

/// Models tend to wrap a JSON response in a fenced block, as
/// ```` ```json ````  ... ```` ``` ````. This removes every occurrence of
/// the fence opener line `"json\n"` and of the backtick fence `"```"`
/// from the response, in that order.
pub fn remove_json_wrapper(json_response: &str) -> (r: String)
    ensures
        r@ == strip_occurrences(
            strip_occurrences(json_response@, "json\n"@),
            "```"@,
        ),
{
    proof {
        reveal_strlit("json\n");
        reveal_strlit("```");
    }
    let no_json = strip_pattern(json_response, "json\n");
    strip_pattern(no_json.as_str(), "```")
}

} // verus!
