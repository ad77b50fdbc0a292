//! The log service's configuration string (`topic:partition@servers`), the
//! names under which structured log fields are recorded, and the text of a
//! thread's id.

use vstd::prelude::*;
use crate::text::{chars_of, split_once_chars, split_once_seq, string_from_chars};

verus! {

/// Where the log service writes: a Kafka topic, a partition, and the
/// bootstrap servers.
#[derive(Debug, Clone)]
pub struct KafkaConfig {
    pub topic: String,
    pub partition: i32,
    pub servers: String,
}

/// Why a log service configuration string is refused.
#[derive(Debug, Clone, Copy, PartialEq, Eq, Structural)]
pub enum KafkaConfigError {
    /// The string is not `topic:partition@servers`.
    InvalidConfig,
    /// The partition does not fit in an `i32`.
    PartitionOutOfRange,
}

/// A character a topic may hold: an ASCII letter or digit, `.`, `_` or `-`.
pub open spec fn topic_char(c: char) -> bool {
    ('a' <= c && c <= 'z') || ('A' <= c && c <= 'Z') || ('0' <= c && c <= '9') || c == '.' || c == '_' || c == '-'
}

/// An ASCII digit.
pub open spec fn digit_char(c: char) -> bool {
    '0' <= c && c <= '9'
}

/// The number that decimal digits spell.
pub open spec fn decimal_value(d: Seq<char>) -> nat
    decreases d.len(),
{
    if d.len() == 0 {
        0
    } else {
        decimal_value(d.drop_last()) * 10 + (d.last() as nat - '0' as nat) as nat
    }
}

/// Reading `topic:partition@servers`, as the expression
/// `^([a-zA-Z0-9._-]+):([0-9]+)@(.+)$` does: the topic is a non-empty run of
/// topic characters up to the first `:`, the partition a non-empty run of
/// digits up to the next `@`, and the servers the non-empty rest, without a
/// newline. The partition must fit in an `i32`.
pub open spec fn spec_parse_kafka_config(s: Seq<char>) -> Result<(Seq<char>, int, Seq<char>), KafkaConfigError> {
    match split_once_seq(s, ':') {
        None => Err(KafkaConfigError::InvalidConfig),
        Some((topic, rest)) => match split_once_seq(rest, '@') {
            None => Err(KafkaConfigError::InvalidConfig),
            Some((digits, servers)) => if topic.len() > 0 && (forall|i: int| 0 <= i < topic.len() ==> topic_char(#[trigger] topic[i]))
                && digits.len() > 0 && (forall|i: int| 0 <= i < digits.len() ==> digit_char(#[trigger] digits[i]))
                && servers.len() > 0 && !servers.contains('\n') {
                if decimal_value(digits) <= i32::MAX {
                    Ok((topic, decimal_value(digits) as int, servers))
                } else {
                    Err(KafkaConfigError::PartitionOutOfRange)
                }
            } else {
                Err(KafkaConfigError::InvalidConfig)
            },
        },
    }
}

/// Whether every character is a topic character.
fn all_topic_chars(s: &[char]) -> (res: bool)
    ensures
        res == forall|i: int| 0 <= i < s@.len() ==> topic_char(#[trigger] s@[i]),
{
    let mut i: usize = 0;
    while i < s.len()
        invariant
            i <= s.len(),
            forall|j: int| 0 <= j < i ==> topic_char(#[trigger] s@[j]),
        decreases s.len() - i,
    {
        let c = s[i];
        if !(('a' <= c && c <= 'z') || ('A' <= c && c <= 'Z') || ('0' <= c && c <= '9') || c == '.' || c == '_'
            || c == '-') {
            return false;
        }
        i += 1;
    }
    true
}

/// Whether no character is a newline.
fn no_newline(s: &[char]) -> (res: bool)
    ensures
        res == !s@.contains('\n'),
{
    let mut i: usize = 0;
    while i < s.len()
        invariant
            i <= s.len(),
            forall|j: int| 0 <= j < i ==> s@[j] != '\n',
        decreases s.len() - i,
    {
        if s[i] == '\n' {
            proof {
                assert(s@[i as int] == '\n');
            }
            return false;
        }
        i += 1;
    }
    true
}

/// The value of decimal digits, if every character is a digit and the value
/// is at most `i32::MAX`; `Err(true)` when a character is no digit,
/// `Err(false)` when the value is too large.
fn parse_partition(d: &[char]) -> (res: Result<i32, bool>)
    ensures
        !(forall|i: int| 0 <= i < d@.len() ==> digit_char(#[trigger] d@[i])) ==> res == Err::<i32, bool>(true),
        (forall|i: int| 0 <= i < d@.len() ==> digit_char(#[trigger] d@[i])) ==> (if decimal_value(d@) <= i32::MAX {
            res == Ok::<i32, bool>(decimal_value(d@) as i32)
        } else {
            res == Err::<i32, bool>(false)
        }),
{
    let mut v: i64 = 0;
    let mut too_large = false;
    let mut i: usize = 0;
    while i < d.len()
        invariant
            i <= d.len(),
            forall|j: int| 0 <= j < i ==> digit_char(#[trigger] d@[j]),
            !too_large ==> v == decimal_value(d@.take(i as int)) && v <= i32::MAX,
            too_large ==> decimal_value(d@.take(i as int)) > i32::MAX,
        decreases d.len() - i,
    {
        let c = d[i];
        if !('0' <= c && c <= '9') {
            return Err(true);
        }
        proof {
            assert(d@.take(i + 1).drop_last() =~= d@.take(i as int));
            lemma_decimal_monotone(d@.take(i as int), c);
        }
        if !too_large {
            let next = v * 10 + (c as i64 - '0' as i64);
            if next > 2147483647i64 {
                too_large = true;
            } else {
                v = next;
            }
        }
        i += 1;
    }
    proof {
        assert(d@.take(d@.len() as int) =~= d@);
    }
    if too_large {
        Err(false)
    } else {
        Ok(v as i32)
    }
}

proof fn lemma_decimal_monotone(p: Seq<char>, c: char)
    requires
        digit_char(c),
    ensures
        decimal_value(p.push(c)) >= decimal_value(p),
        decimal_value(p.push(c)) == decimal_value(p) * 10 + (c as nat - '0' as nat),
{
    assert(p.push(c).drop_last() =~= p);
}

/// Reads the log service's configuration string `topic:partition@servers`.
pub fn parse_kafka_config(s: &str) -> (res: Result<KafkaConfig, KafkaConfigError>)
    ensures
        match spec_parse_kafka_config(s@) {
            Ok((topic, partition, servers)) => res matches Ok(k) && k.topic@ == topic && k.partition == partition
                && k.servers@ == servers,
            Err(e) => res matches Err(x) && x == e,
        },
{
    let c = chars_of(s);
    let (topic, rest) = match split_once_chars(c.as_slice(), ':') {
        Some(p) => p,
        None => return Err(KafkaConfigError::InvalidConfig),
    };
    let (digits, servers) = match split_once_chars(rest.as_slice(), '@') {
        Some(p) => p,
        None => return Err(KafkaConfigError::InvalidConfig),
    };
    if topic.len() == 0 || !all_topic_chars(topic.as_slice()) || digits.len() == 0 || servers.len() == 0
        || !no_newline(servers.as_slice()) {
        return Err(KafkaConfigError::InvalidConfig);
    }
    match parse_partition(digits.as_slice()) {
        Ok(p) => Ok(
            KafkaConfig {
                topic: string_from_chars(topic.as_slice()),
                partition: p,
                servers: string_from_chars(servers.as_slice()),
            },
        ),
        Err(true) => Err(KafkaConfigError::InvalidConfig),
        Err(false) => Err(KafkaConfigError::PartitionOutOfRange),
    }
}

/// The name under which a field recorded by its debug text is kept: fields
/// named `log.…` are log metadata and are skipped; a raw identifier `r#…`
/// loses its `r#`.
pub open spec fn spec_json_field_name(name: Seq<char>) -> Option<Seq<char>> {
    if name.len() >= 4 && name.take(4) == "log."@ {
        None
    } else if name.len() >= 2 && name.take(2) == "r#"@ {
        Some(name.skip(2))
    } else {
        Some(name)
    }
}

/// The name a structured log field is recorded under, if it is recorded.
pub fn json_field_name(name: &str) -> (res: Option<String>)
    ensures
        match spec_json_field_name(name@) {
            Some(n) => res matches Some(r) && r@ == n,
            None => res is None,
        },
{
    let c = chars_of(name);
    proof {
        reveal_strlit("log.");
        reveal_strlit("r#");
    }
    if c.len() >= 4 && c[0] == 'l' && c[1] == 'o' && c[2] == 'g' && c[3] == '.' {
        proof {
            assert(c@.take(4) =~= "log."@);
        }
        return None;
    }
    proof {
        if c@.len() >= 4 && c@.take(4) == "log."@ {
            assert(c@.take(4)[0] == 'l' && c@.take(4)[1] == 'o' && c@.take(4)[2] == 'g' && c@.take(4)[3] == '.');
        }
    }
    if c.len() >= 2 && c[0] == 'r' && c[1] == '#' {
        let mut out: Vec<char> = Vec::new();
        let mut i: usize = 2;
        while i < c.len()
            invariant
                2 <= i <= c@.len(),
                out@ == c@.subrange(2, i as int),
            decreases c.len() - i,
        {
            out.push(c[i]);
            proof {
                assert(c@.subrange(2, i + 1) =~= c@.subrange(2, i as int).push(c@[i as int]));
            }
            i += 1;
        }
        proof {
            assert(c@.take(2) =~= "r#"@);
            assert(out@ =~= c@.skip(2));
        }
        return Some(string_from_chars(out.as_slice()));
    }
    proof {
        if c@.len() >= 2 && c@.take(2) == "r#"@ {
            assert(c@.take(2)[0] == 'r');
            assert(c@.take(2)[1] == '#');
        }
    }
    Some(string_from_chars(c.as_slice()))
}

/// Decimal digits of a number.
pub open spec fn decimal_text(n: nat) -> Seq<char>
    decreases n,
{
    if n < 10 {
        seq![('0' as nat + n) as char]
    } else {
        decimal_text(n / 10).push(('0' as nat + n % 10) as char)
    }
}

/// The text of a thread's id: its decimal digits.
pub fn unique_tid(tid: u64) -> (res: String)
    ensures
        res@ == decimal_text(tid as nat),
{
    let mut digits: Vec<char> = Vec::new();
    let mut n: u64 = tid;
    let ghost mut suffix: Seq<char> = Seq::empty();
    while n >= 10
        invariant
            decimal_text(tid as nat) == decimal_text(n as nat) + suffix,
            digits@ == suffix.reverse(),
        decreases n,
    {
        let d = n % 10;
        let ch = char_of_digit(d);
        proof {
            assert(decimal_text(n as nat) == decimal_text((n / 10) as nat).push(ch));
            assert(decimal_text(n as nat) + suffix =~= decimal_text((n / 10) as nat) + (seq![ch] + suffix));
            assert((seq![ch] + suffix).reverse() =~= suffix.reverse().push(ch));
            suffix = seq![ch] + suffix;
        }
        digits.push(ch);
        n = n / 10;
    }
    let ch = char_of_digit(n);
    proof {
        assert(decimal_text(n as nat) == seq![ch]);
        assert((seq![ch] + suffix).reverse() =~= suffix.reverse().push(ch));
        suffix = seq![ch] + suffix;
    }
    digits.push(ch);
    let mut out: Vec<char> = Vec::new();
    let mut i: usize = digits.len();
    while i > 0
        invariant
            i <= digits@.len(),
            digits@ == suffix.reverse(),
            out@ == suffix.take((digits@.len() - i) as int),
            suffix.len() == digits@.len(),
        decreases i,
    {
        i -= 1;
        out.push(digits[i]);
        proof {
            assert(suffix.take((digits@.len() - i) as int) =~= suffix.take((digits@.len() - i - 1) as int).push(
                suffix[(digits@.len() - i - 1) as int],
            ));
        }
    }
    proof {
        assert(suffix.take(suffix.len() as int) =~= suffix);
    }
    string_from_chars(out.as_slice())
}

/// The character of a digit.
fn char_of_digit(d: u64) -> (res: char)
    requires
        d < 10,
    ensures
        res == ('0' as nat + d) as char,
{
    if d == 0 {
        '0'
    } else if d == 1 {
        '1'
    } else if d == 2 {
        '2'
    } else if d == 3 {
        '3'
    } else if d == 4 {
        '4'
    } else if d == 5 {
        '5'
    } else if d == 6 {
        '6'
    } else if d == 7 {
        '7'
    } else if d == 8 {
        '8'
    } else {
        '9'
    }
}

/// Round trip of thread-id text: the decimal text of a number consists of
/// digits, and reading those digits back gives the number.
pub proof fn law_decimal_text_roundtrip(n: nat)
    ensures
        forall|i: int| 0 <= i < decimal_text(n).len() ==> digit_char(#[trigger] decimal_text(n)[i]),
        decimal_value(decimal_text(n)) == n,
    decreases n,
{
    if n < 10 {
        assert(decimal_text(n).drop_last() =~= Seq::<char>::empty());
        assert((('0' as nat + n) as char) as nat == '0' as nat + n);
        assert(decimal_value(decimal_text(n)) == decimal_value(decimal_text(n).drop_last()) * 10 + (decimal_text(n).last() as nat - '0' as nat) as nat);
    } else {
        law_decimal_text_roundtrip(n / 10);
        let t = decimal_text(n);
        let d = n % 10;
        assert(t.drop_last() =~= decimal_text(n / 10));
        assert(t.last() == ('0' as nat + d) as char);
        assert((('0' as nat + d) as char) as nat == '0' as nat + d);
        assert(n == (n / 10) * 10 + d);
        assert(decimal_value(t.drop_last()) == n / 10);
        assert(decimal_value(t) == decimal_value(t.drop_last()) * 10 + (t.last() as nat - '0' as nat) as nat);
        assert((t.last() as nat - '0' as nat) as nat == d);
    }
}

} // verus!
