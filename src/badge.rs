use vstd::prelude::*;

verus! {

/// ASCII decimal digit, the class `\d` of the badge patterns.
pub open spec fn is_digit(c: char) -> bool {
    '0' <= c && c <= '9'
}

/// Value of one decimal digit; zero for any other character.
pub open spec fn digit_of(c: char) -> nat {
    if is_digit(c) {
        (c as int - '0' as int) as nat
    } else {
        0
    }
}

/// The ten digit characters, indexed by value.
pub open spec fn digit_char(d: nat) -> char {
    seq!['0', '1', '2', '3', '4', '5', '6', '7', '8', '9'][d as int]
}

/// Index of the first non-digit at or after `k` (the length if none).
pub open spec fn run_end(t: Seq<char>, k: int) -> int
    decreases t.len() - k,
{
    if k < 0 || k >= t.len() || !is_digit(t[k]) {
        k
    } else {
        run_end(t, k + 1)
    }
}

/// `t[i]` opens a group `open digits+ close`.
pub open spec fn enclosed_at(t: Seq<char>, i: int, open: char, close: char) -> bool {
    &&& 0 <= i < t.len()
    &&& t[i] == open
    &&& run_end(t, i + 1) > i + 1
    &&& run_end(t, i + 1) < t.len()
    &&& t[run_end(t, i + 1)] == close
}

/// The leftmost position at or after `i` where such a group starts.
pub open spec fn first_enclosed_from(t: Seq<char>, i: int, open: char, close: char) -> Option<int>
    decreases t.len() - i,
{
    if i < 0 || i >= t.len() {
        None
    } else if enclosed_at(t, i, open, close) {
        Some(i)
    } else {
        first_enclosed_from(t, i + 1, open, close)
    }
}

/// The digits of the leftmost `open digits+ close` group of `t`, if any.
pub open spec fn enclosed_digits(t: Seq<char>, open: char, close: char) -> Option<Seq<char>> {
    match first_enclosed_from(t, 0, open, close) {
        Some(i) => Some(t.subrange(i + 1, run_end(t, i + 1))),
        None => None,
    }
}

/// Pattern for a digit run in parentheses, with the run as group 1.
pub open spec fn paren_pattern() -> Seq<char> {
    "\\((\\d+)\\)"@
}

/// Pattern for a digit run in square brackets, with the run as group 1.
pub open spec fn bracket_pattern() -> Seq<char> {
    "\\[(\\d+)\\]"@
}

pub open spec fn opt_view(s: Option<String>) -> Option<Seq<char>> {
    match s {
        Some(s) => Some(s@),
        None => None,
    }
}

/// Relies on regex_lite::Regex::new and Regex::captures. Both badge patterns
/// compile; `captures` reports the leftmost-first match, `\d` is the ASCII
/// class [0-9], and since the closing delimiter is no digit the greedy run
/// ends right before it, so group 1 is the digit run of the leftmost group.
#[verifier::external_body]
fn first_group(pattern: &str, text: &str) -> (r: Option<String>)
    ensures
        pattern@ == paren_pattern() ==> opt_view(r) == enclosed_digits(text@, '(', ')'),
        pattern@ == bracket_pattern() ==> opt_view(r) == enclosed_digits(text@, '[', ']'),
{
    let re = regex_lite::Regex::new(pattern).ok()?;
    let caps = re.captures(text)?;
    Some(caps.get(1)?.as_str().to_string())
}

/// Numeric value of a digit string, most significant digit first.
pub open spec fn digits_value(s: Seq<char>) -> nat
    decreases s.len(),
{
    if s.len() == 0 {
        0
    } else {
        digits_value(s.drop_last()) * 10 + digit_of(s.last())
    }
}

/// A non-empty run of ASCII digits whose value fits in `u32`, read as a number.
pub open spec fn decimal_value(s: Seq<char>) -> Option<u32> {
    if s.len() > 0 && (forall|i: int| 0 <= i < s.len() ==> is_digit(#[trigger] s[i]))
        && digits_value(s) <= u32::MAX {
        Some(digits_value(s) as u32)
    } else {
        None
    }
}

pub open spec fn value_of(d: Option<Seq<char>>) -> Option<u32> {
    match d {
        Some(s) => decimal_value(s),
        None => None,
    }
}

/// Badge of a page title: the number in the leftmost parenthesised digit
/// run if it is positive, else the one in the leftmost bracketed run if that
/// is positive, else zero.
pub open spec fn badge_of(title: Seq<char>) -> u32 {
    let p = value_of(enclosed_digits(title, '(', ')'));
    let b = value_of(enclosed_digits(title, '[', ']'));
    if p is Some && p->0 > 0 {
        p->0
    } else if b is Some && b->0 > 0 {
        b->0
    } else {
        0
    }
}

proof fn lemma_prefix_value_le(s: Seq<char>, k: int)
    requires
        0 <= k <= s.len(),
    ensures
        digits_value(s.take(k)) <= digits_value(s),
    decreases s.len(),
{
    if k < s.len() {
        assert(s.drop_last().take(k) =~= s.take(k));
        lemma_prefix_value_le(s.drop_last(), k);
    } else {
        assert(s.take(k) =~= s);
    }
}

/// Reads a decimal number as `str::parse::<u32>` does on a run of digits.
pub fn parse_decimal(s: &str) -> (r: Option<u32>)
    ensures
        r == decimal_value(s@),
{
    let n = s.unicode_len();
    if n == 0 {
        return None;
    }
    let mut acc: u32 = 0;
    let mut i: usize = 0;
    while i < n
        invariant
            n == s@.len(),
            i <= n,
            forall|j: int| 0 <= j < i ==> is_digit(#[trigger] s@[j]),
            acc as nat == digits_value(s@.take(i as int)),
        decreases n - i,
    {
        let c = s.get_char(i);
        if !('0' <= c && c <= '9') {
            return None;
        }
        let d: u32 = (c as u32) - ('0' as u32);
        proof {
            assert(s@.take(i + 1).drop_last() =~= s@.take(i as int));
        }
        if acc > (u32::MAX - d) / 10 {
            proof {
                assert(digits_value(s@.take(i + 1)) > u32::MAX);
                lemma_prefix_value_le(s@, i + 1);
            }
            return None;
        }
        acc = acc * 10 + d;
        i = i + 1;
    }
    proof {
        assert(s@.take(i as int) =~= s@);
    }
    Some(acc)
}

fn group_value(g: &Option<String>) -> (r: Option<u32>)
    ensures
        r == value_of(opt_view(*g)),
{
    match g {
        Some(s) => parse_decimal(s.as_str()),
        None => None,
    }
}

/// Unread count shown for a page title. The parenthesised pattern is tried
/// first; a zero (or an unreadable number) there falls through to the
/// bracketed pattern; with neither the badge is zero.
pub fn extract_badge_count(title: &str) -> (r: u32)
    ensures
        r == badge_of(title@),
{
    let p = group_value(&first_group("\\((\\d+)\\)", title));
    if let Some(n) = p {
        if n > 0 {
            return n;
        }
    }
    let b = group_value(&first_group("\\[(\\d+)\\]", title));
    if let Some(n) = b {
        if n > 0 {
            return n;
        }
    }
    0
}

/// Decimal rendering of a number, without leading zeros.
pub open spec fn decimal_text(n: nat) -> Seq<char>
    decreases n,
{
    if n < 10 {
        seq![digit_char(n)]
    } else {
        decimal_text(n / 10).push(digit_char(n % 10))
    }
}

fn digit_text(d: u32) -> (r: &'static str)
    requires
        d < 10,
    ensures
        r@ == seq![digit_char(d as nat)],
{
    proof {
        reveal_strlit("0");
        reveal_strlit("1");
        reveal_strlit("2");
        reveal_strlit("3");
        reveal_strlit("4");
        reveal_strlit("5");
        reveal_strlit("6");
        reveal_strlit("7");
        reveal_strlit("8");
        reveal_strlit("9");
    }
    match d {
        0 => "0",
        1 => "1",
        2 => "2",
        3 => "3",
        4 => "4",
        5 => "5",
        6 => "6",
        7 => "7",
        8 => "8",
        _ => "9",
    }
}

/// Appends the decimal rendering of `n`.
pub fn push_decimal(out: &mut String, n: u32)
    ensures
        final(out)@ == old(out)@ + decimal_text(n as nat),
    decreases n,
{
    if n >= 10 {
        push_decimal(out, n / 10);
    }
    out.append(digit_text(n % 10));
    proof {
        if n >= 10 {
            assert(old(out)@ + decimal_text(n as nat) =~= old(out)@ + decimal_text((n / 10) as nat)
                + seq![digit_char((n % 10) as nat)]);
        } else {
            assert(decimal_text(n as nat) =~= seq![digit_char((n % 10) as nat)]);
        }
    }
}

/// Text of the notification for a badge that went from `prev` to `count`,
/// or none when the badge did not grow.
pub open spec fn notification_text(count: u32, prev: u32, name: Seq<char>) -> Option<Seq<char>> {
    if count <= prev {
        None
    } else if prev == 0 {
        if count == 1 {
            Some("1 notification from "@ + name)
        } else {
            Some(decimal_text(count as nat) + " notifications from "@ + name)
        }
    } else if count - prev == 1 {
        Some("New notification from "@ + name)
    } else {
        Some(decimal_text((count - prev) as nat) + " new notifications from "@ + name)
    }
}

/// Body of the notification sent when a badge goes from `prev` to `count`:
/// the total when there was none before, otherwise the number of new ones.
/// None when the badge stayed or fell.
pub fn notification_body(count: u32, prev: u32, name: &str) -> (r: Option<String>)
    ensures
        opt_view(r) == notification_text(count, prev, name@),
{
    if count <= prev {
        return None;
    }
    let mut s = String::new();
    if prev == 0 {
        if count == 1 {
            s.append("1 notification from ");
        } else {
            push_decimal(&mut s, count);
            s.append(" notifications from ");
        }
    } else if count - prev == 1 {
        s.append("New notification from ");
    } else {
        push_decimal(&mut s, count - prev);
        s.append(" new notifications from ");
    }
    s.append(name);
    proof {
        assert(Seq::<char>::empty() + "1 notification from "@ =~= "1 notification from "@);
        assert(Seq::<char>::empty() + "New notification from "@ =~= "New notification from "@);
        assert(Seq::<char>::empty() + decimal_text(count as nat) =~= decimal_text(count as nat));
        assert(Seq::<char>::empty() + decimal_text((count - prev) as nat) =~= decimal_text(
            (count - prev) as nat,
        ));
    }
    Some(s)
}

} // verus!
