use vstd::prelude::*;
use crate::text::chars_of;

verus! {

/// A log file stops growing at this size.
pub const MAX_LOG_FILE_BYTES: u64 = 10 * 1024 * 1024;

/// Old logs are removed while the log folder holds more than this.
pub const MAX_LOG_DIRECTORY_BYTES: u64 = 100 * 1024 * 1024;

/// A character kept in a file name: an ASCII letter or digit, or `-`.
pub open spec fn id_char(c: char) -> bool {
    ('0' <= c <= '9') || ('A' <= c <= 'Z') || ('a' <= c <= 'z') || c == '-'
}

/// The characters of a text that may stand in a file name, in order.
pub open spec fn id_chars(s: Seq<char>) -> Seq<char>
    decreases s.len(),
{
    if s.len() == 0 {
        Seq::empty()
    } else if id_char(s.last()) {
        id_chars(s.drop_last()).push(s.last())
    } else {
        id_chars(s.drop_last())
    }
}

/// The part of an operation id used in a log file name: its letters,
/// digits and dashes, at most 64 of them.
pub open spec fn spec_safe_id(s: Seq<char>) -> Seq<char> {
    let kept = id_chars(s);
    if kept.len() <= 64 {
        kept
    } else {
        kept.take(64)
    }
}

proof fn lemma_id_chars_len(s: Seq<char>)
    ensures
        id_chars(s).len() <= s.len(),
    decreases s.len(),
{
    if s.len() > 0 {
        lemma_id_chars_len(s.drop_last());
    }
}

pub fn safe_id(value: &str) -> (s: String)
    ensures
        s@ == spec_safe_id(value@),
{
    let c = chars_of(value);
    let mut s = String::new();
    let mut count: usize = 0;
    let mut i: usize = 0;
    while i < c.len()
        invariant
            c@ == value@,
            i <= c@.len(),
            count == s@.len(),
            s@ == spec_safe_id(value@.take(i as int)),
        decreases c@.len() - i,
    {
        proof {
            assert(value@.take(i + 1).drop_last() =~= value@.take(i as int));
            lemma_id_chars_len(value@.take(i as int));
        }
        let ch = c[i];
        if ('0' <= ch && ch <= '9') || ('A' <= ch && ch <= 'Z') || ('a' <= ch && ch <= 'z') || ch
            == '-' {
            if count < 64 {
                s.append(value.substring_char(i, i + 1));
                count = count + 1;
                assert(value@.subrange(i as int, i + 1) =~= seq![ch]);
            }
            proof {
                let kept = id_chars(value@.take(i as int));
                assert(id_chars(value@.take(i + 1)) == kept.push(ch));
                if kept.len() >= 64 {
                    assert(kept.push(ch).take(64) =~= kept.take(64));
                    assert(kept.len() == 64 ==> kept.take(64) =~= kept);
                }
            }
        }
        i = i + 1;
    }
    assert(value@.take(i as int) =~= value@);
    s
}

/// A line break character, as log lines must not contain one.
pub open spec fn line_break(c: char) -> bool {
    c == '\r' || c == '\n'
}

/// A message on one line: each `\r` and `\n` becomes a space.
pub open spec fn spec_one_line(s: Seq<char>) -> Seq<char> {
    s.map_values(|c: char| if line_break(c) { ' ' } else { c })
}

pub fn one_line(message: &str) -> (s: String)
    ensures
        s@ == spec_one_line(message@),
{
    let c = chars_of(message);
    let mut s = String::new();
    let mut i: usize = 0;
    proof {
        reveal_strlit(" ");
    }
    while i < c.len()
        invariant
            c@ == message@,
            i <= c@.len(),
            s@ == spec_one_line(message@.take(i as int)),
        decreases c@.len() - i,
    {
        let ch = c[i];
        proof {
            reveal_strlit(" ");
        }
        if ch == '\r' || ch == '\n' {
            s.append(" ");
        } else {
            s.append(message.substring_char(i, i + 1));
            assert(message@.subrange(i as int, i + 1) =~= seq![ch]);
        }
        assert(spec_one_line(message@.take(i + 1)) =~= spec_one_line(message@.take(i as int)).push(
            if line_break(ch) { ' ' } else { ch },
        ));
        i = i + 1;
    }
    assert(message@.take(i as int) =~= message@);
    s
}

/// One line of an operation log: time, level, stage and message, separated
/// by tabs, the message on one line.
pub fn log_line(timestamp: &str, level: &str, stage: &str, message: &str) -> (s: String)
    ensures
        s@ == timestamp@ + "\t"@ + level@ + "\t"@ + stage@ + "\t"@ + spec_one_line(message@),
{
    let mut s = String::from_str(timestamp);
    s.append("\t");
    s.append(level);
    s.append("\t");
    s.append(stage);
    s.append("\t");
    let body = one_line(message);
    s.append(body.as_str());
    s
}

/// How many of the oldest logs go, oldest first, so that the folder holds
/// at most [`MAX_LOG_DIRECTORY_BYTES`]: each removal takes its size off
/// the total, until the total fits.
pub open spec fn spec_quota_removals(sizes: Seq<u64>, total: u64) -> nat
    decreases sizes.len(),
{
    if sizes.len() == 0 || total <= MAX_LOG_DIRECTORY_BYTES {
        0
    } else {
        let rest = if total >= sizes[0] {
            (total - sizes[0]) as u64
        } else {
            0u64
        };
        1 + spec_quota_removals(sizes.drop_first(), rest)
    }
}

pub fn quota_removals(sizes_oldest_first: &[u64], total: u64) -> (n: usize)
    ensures
        n == spec_quota_removals(sizes_oldest_first@, total),
{
    let ghost s = sizes_oldest_first@;
    let mut remaining = total;
    let mut n: usize = 0;
    assert(s.skip(0) =~= s);
    while n < sizes_oldest_first.len() && remaining > MAX_LOG_DIRECTORY_BYTES
        invariant
            n <= s.len(),
            s == sizes_oldest_first@,
            spec_quota_removals(s, total) == n + spec_quota_removals(s.skip(n as int), remaining),
        decreases s.len() - n,
    {
        assert(s.skip(n as int)[0] == s[n as int]);
        assert(s.skip(n as int).drop_first() =~= s.skip(n + 1));
        remaining = remaining.saturating_sub(sizes_oldest_first[n]);
        n = n + 1;
    }
    n
}

} // verus!
