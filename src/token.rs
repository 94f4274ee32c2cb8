use vstd::prelude::*;
use vstd::string::StringSliceAdditionalSpecFns;

verus! {

/// The vocabulary of command names that a harness recognises.
#[derive(Clone, Copy, Debug, PartialEq, Eq, Structural)]
pub enum Profile {
    /// The port harness: GPIO, SPI, I2C and UART commands.
    Port,
    /// The daemon harness: channel open, write, ack and close commands.
    Daemon,
}

/// A script that cannot be read as directives.
#[derive(Debug)]
pub enum ScriptError {
    /// A token that is neither `_`, a command name, nor a byte literal.
    InvalidToken(Vec<u8>),
}

/// The command names of a profile, with the byte each stands for.
pub open spec fn profile_table(p: Profile) -> Seq<(&'static str, u8)> {
    match p {
        Profile::Port => seq![
            ("NOP", 0u8), ("FLUSH", 1u8), ("ECHO", 2u8), ("GPIO_IN", 3u8),
            ("GPIO_HIGH", 4u8), ("GPIO_LOW", 5u8), ("GPIO_TOGGLE", 21u8), ("GPIO_CFG", 6u8),
            ("GPIO_WAIT", 7u8), ("GPIO_INT", 8u8), ("ENABLE_SPI", 10u8), ("DISABLE_SPI", 11u8),
            ("ENABLE_I2C", 12u8), ("DISABLE_I2C", 13u8), ("ENABLE_UART", 14u8),
            ("DISABLE_UART", 15u8), ("TX", 16u8), ("RX", 17u8), ("TXRX", 18u8),
            ("START", 19u8), ("STOP", 20u8), ("ACK", 0x80u8), ("NACK", 0x81u8),
            ("HIGH", 0x82u8), ("LOW", 0x83u8), ("DATA", 0x84u8),
        ],
        Profile::Daemon => seq![
            ("CMD_RESET", 0x00u8), ("CMD_OPEN", 0x01u8), ("CMD_CLOSE", 0x02u8),
            ("CMD_KILL", 0x03u8), ("CMD_EXIT_STATUS", 0x05u8), ("CMD_CLOSE_ACK", 0x06u8),
            ("CMD_WRITE_CONTROL", 0x10u8), ("CMD_WRITE_STDIN", 0x11u8),
            ("CMD_WRITE_STDOUT", 0x12u8), ("CMD_WRITE_STDERR", 0x13u8),
            ("CMD_ACK_CONTROL", 0x20u8), ("CMD_ACK_STDIN", 0x21u8), ("CMD_ACK_STDOUT", 0x22u8),
            ("CMD_ACK_STDERR", 0x23u8), ("CMD_CLOSE_CONTROL", 0x30u8),
            ("CMD_CLOSE_STDIN", 0x31u8), ("CMD_CLOSE_STDOUT", 0x32u8),
            ("CMD_CLOSE_STDERR", 0x33u8),
        ],
    }
}

/// The byte of the first entry of `table` named `t`, if any.
pub open spec fn lookup(table: Seq<(&'static str, u8)>, t: Seq<u8>) -> Option<u8>
    decreases table.len(),
{
    if table.len() == 0 {
        None
    } else if table[0].0.spec_bytes() == t {
        Some(table[0].1)
    } else {
        lookup(table.drop_first(), t)
    }
}

/// The value of digit `c` in base `radix` (10 or 16; both cases of hex digits).
pub open spec fn digit_value(c: u8, radix: nat) -> Option<nat> {
    if '0' as u8 <= c && c <= '9' as u8 {
        Some((c - '0' as u8) as nat)
    } else if radix == 16 && 'a' as u8 <= c && c <= 'f' as u8 {
        Some((c - 'a' as u8 + 10) as nat)
    } else if radix == 16 && 'A' as u8 <= c && c <= 'F' as u8 {
        Some((c - 'A' as u8 + 10) as nat)
    } else {
        None
    }
}

/// A non-empty run of digits of base `radix`.
pub open spec fn is_numeral(t: Seq<u8>, radix: nat) -> bool {
    &&& t.len() > 0
    &&& forall|i: int| 0 <= i < t.len() ==> (#[trigger] digit_value(t[i], radix)) is Some
}

/// The number that the digits `t` denote in base `radix`.
pub open spec fn numeral_value(t: Seq<u8>, radix: nat) -> nat
    decreases t.len(),
{
    if t.len() == 0 {
        0
    } else {
        let d = match digit_value(t.last(), radix) {
            Some(d) => d,
            None => 0,
        };
        numeral_value(t.drop_last(), radix) * radix + d
    }
}

/// The byte that a numeral denotes, where it is one and its value fits.
pub open spec fn numeral_byte(t: Seq<u8>, radix: nat) -> Option<u8> {
    if is_numeral(t, radix) && numeral_value(t, radix) < 256 {
        Some(numeral_value(t, radix) as u8)
    } else {
        None
    }
}

pub open spec fn is_wildcard(t: Seq<u8>) -> bool {
    t.len() == 1 && t[0] == '_' as u8
}

pub open spec fn has_hex_prefix(t: Seq<u8>) -> bool {
    t.len() >= 2 && t[0] == '0' as u8 && t[1] == 'x' as u8
}

/// What token `t` resolves to: `Some(None)` for the wildcard, `Some(Some(b))`
/// for byte `b`, `None` where the token is invalid. No command name starts
/// with `0x`, so testing that prefix before the table resolves every token as
/// consulting the table first would.
pub open spec fn token_slot(p: Profile, t: Seq<u8>) -> Option<Option<u8>> {
    if is_wildcard(t) {
        Some(None)
    } else if has_hex_prefix(t) {
        match numeral_byte(t.subrange(2, t.len() as int), 16) {
            Some(b) => Some(Some(b)),
            None => None,
        }
    } else {
        match lookup(profile_table(p), t) {
            Some(b) => Some(Some(b)),
            None => match numeral_byte(t, 10) {
                Some(b) => Some(Some(b)),
                None => None,
            },
        }
    }
}

/// The digit of `n` (below 16) in lower-case hexadecimal.
pub open spec fn hex_digit_char(n: u8) -> u8 {
    if n < 10 {
        ('0' as u8 + n) as u8
    } else {
        ('a' as u8 + n - 10) as u8
    }
}

/// Byte `b` written `0xHH`.
pub open spec fn hex_token_of(b: u8) -> Seq<u8> {
    seq!['0' as u8, 'x' as u8, hex_digit_char(b / 16), hex_digit_char(b % 16)]
}

/// The entries of a profile's command table.
pub fn mnemonic_table(p: Profile) -> (r: Vec<(&'static str, u8)>)
    ensures
        r@ == profile_table(p),
{
    match p {
        Profile::Port => {
            let r = vec![
                ("NOP", 0u8), ("FLUSH", 1u8), ("ECHO", 2u8), ("GPIO_IN", 3u8),
                ("GPIO_HIGH", 4u8), ("GPIO_LOW", 5u8), ("GPIO_TOGGLE", 21u8), ("GPIO_CFG", 6u8),
                ("GPIO_WAIT", 7u8), ("GPIO_INT", 8u8), ("ENABLE_SPI", 10u8), ("DISABLE_SPI", 11u8),
                ("ENABLE_I2C", 12u8), ("DISABLE_I2C", 13u8), ("ENABLE_UART", 14u8),
                ("DISABLE_UART", 15u8), ("TX", 16u8), ("RX", 17u8), ("TXRX", 18u8),
                ("START", 19u8), ("STOP", 20u8), ("ACK", 0x80u8), ("NACK", 0x81u8),
                ("HIGH", 0x82u8), ("LOW", 0x83u8), ("DATA", 0x84u8),
            ];
            assert(r@ =~= profile_table(p));
            r
        },
        Profile::Daemon => {
            let r = vec![
                ("CMD_RESET", 0x00u8), ("CMD_OPEN", 0x01u8), ("CMD_CLOSE", 0x02u8),
                ("CMD_KILL", 0x03u8), ("CMD_EXIT_STATUS", 0x05u8), ("CMD_CLOSE_ACK", 0x06u8),
                ("CMD_WRITE_CONTROL", 0x10u8), ("CMD_WRITE_STDIN", 0x11u8),
                ("CMD_WRITE_STDOUT", 0x12u8), ("CMD_WRITE_STDERR", 0x13u8),
                ("CMD_ACK_CONTROL", 0x20u8), ("CMD_ACK_STDIN", 0x21u8), ("CMD_ACK_STDOUT", 0x22u8),
                ("CMD_ACK_STDERR", 0x23u8), ("CMD_CLOSE_CONTROL", 0x30u8),
                ("CMD_CLOSE_STDIN", 0x31u8), ("CMD_CLOSE_STDOUT", 0x32u8),
                ("CMD_CLOSE_STDERR", 0x33u8),
            ];
            assert(r@ =~= profile_table(p));
            r
        },
    }
}

/// Whether two byte strings are equal.
pub fn bytes_eq(a: &[u8], b: &[u8]) -> (r: bool)
    ensures
        r == (a@ == b@),
{
    if a.len() != b.len() {
        return false;
    }
    let mut i: usize = 0;
    while i < a.len()
        invariant
            a@.len() == b@.len(),
            0 <= i <= a@.len(),
            forall|j: int| 0 <= j < i ==> a@[j] == b@[j],
        decreases a@.len() - i,
    {
        if a[i] != b[i] {
            return false;
        }
        i = i + 1;
    }
    assert(a@ =~= b@);
    true
}

/// The byte that command name `t` stands for in profile `p`.
pub fn lookup_mnemonic(p: Profile, t: &[u8]) -> (r: Option<u8>)
    ensures
        r == lookup(profile_table(p), t@),
{
    let table = mnemonic_table(p);
    let mut i: usize = 0;
    assert(table@.subrange(0, table@.len() as int) =~= table@);
    while i < table.len()
        invariant
            table@ == profile_table(p),
            0 <= i <= table@.len(),
            lookup(table@, t@) == lookup(table@.subrange(i as int, table@.len() as int), t@),
        decreases table@.len() - i,
    {
        let ghost rest = table@.subrange(i as int, table@.len() as int);
        assert(rest.drop_first() =~= table@.subrange(i + 1, table@.len() as int));
        if bytes_eq(t, table[i].0.as_bytes()) {
            return Some(table[i].1);
        }
        i = i + 1;
    }
    None
}

/// The value of digit `c` in base `radix`.
fn digit(c: u8, radix: u8) -> (r: Option<u8>)
    requires
        radix == 10 || radix == 16,
    ensures
        match r {
            Some(d) => digit_value(c, radix as nat) == Some(d as nat) && d < radix,
            None => digit_value(c, radix as nat) is None,
        },
{
    if '0' as u8 <= c && c <= '9' as u8 {
        Some(c - '0' as u8)
    } else if radix == 16 && 'a' as u8 <= c && c <= 'f' as u8 {
        Some(c - 'a' as u8 + 10)
    } else if radix == 16 && 'A' as u8 <= c && c <= 'F' as u8 {
        Some(c - 'A' as u8 + 10)
    } else {
        None
    }
}

/// A longer run of digits never denotes less than its prefix.
proof fn lemma_prefix_value_le(t: Seq<u8>, j: int, radix: nat)
    requires
        0 <= j <= t.len(),
        radix >= 1,
    ensures
        numeral_value(t.subrange(0, j), radix) <= numeral_value(t, radix),
    decreases t.len(),
{
    if j == t.len() {
        assert(t.subrange(0, j) =~= t);
    } else {
        let s = t.drop_last();
        assert(s.subrange(0, j) =~= t.subrange(0, j));
        lemma_prefix_value_le(s, j, radix);
        let a = numeral_value(s, radix);
        assert(a * radix >= a) by (nonlinear_arith)
            requires
                radix >= 1,
        ;
    }
}

/// The byte that the numeral `t` denotes in base `radix`, where it fits.
pub fn parse_numeral(t: &[u8], radix: u8) -> (r: Option<u8>)
    requires
        radix == 10 || radix == 16,
    ensures
        r == numeral_byte(t@, radix as nat),
{
    if t.len() == 0 {
        return None;
    }
    let mut acc: u32 = 0;
    let mut i: usize = 0;
    while i < t.len()
        invariant
            0 <= i <= t@.len(),
            radix == 10 || radix == 16,
            acc == numeral_value(t@.subrange(0, i as int), radix as nat),
            acc <= 255,
            forall|j: int| 0 <= j < i ==> (#[trigger] digit_value(t@[j], radix as nat)) is Some,
        decreases t@.len() - i,
    {
        match digit(t[i], radix) {
            None => {
                return None;
            },
            Some(d) => {
                assert(acc * (radix as u32) <= 255 * 16) by (nonlinear_arith)
                    requires
                        acc <= 255,
                        radix <= 16,
                ;
                let next: u32 = acc * (radix as u32) + (d as u32);
                assert(t@.subrange(0, i + 1).drop_last() =~= t@.subrange(0, i as int));
                assert(next == numeral_value(t@.subrange(0, i + 1), radix as nat));
                if next > 255 {
                    proof {
                        lemma_prefix_value_le(t@, i + 1, radix as nat);
                    }
                    return None;
                }
                acc = next;
            },
        }
        i = i + 1;
    }
    assert(t@.subrange(0, t@.len() as int) =~= t@);
    Some(acc as u8)
}

/// What token `t` resolves to in profile `p`: `Ok(None)` for the wildcard `_`,
/// `Ok(Some(b))` for a command name or a byte literal, an error otherwise.
pub fn parse_token(p: Profile, t: &[u8]) -> (r: Result<Option<u8>, ScriptError>)
    ensures
        match r {
            Ok(v) => token_slot(p, t@) == Some(v),
            Err(ScriptError::InvalidToken(u)) => token_slot(p, t@) is None && u@ == t@,
        },
{
    if t.len() == 1 && t[0] == '_' as u8 {
        return Ok(None);
    }
    let resolved = if t.len() >= 2 && t[0] == '0' as u8 && t[1] == 'x' as u8 {
        parse_numeral(&t[2..t.len()], 16)
    } else {
        match lookup_mnemonic(p, t) {
            Some(b) => Some(b),
            None => parse_numeral(t, 10),
        }
    };
    match resolved {
        Some(b) => Ok(Some(b)),
        None => Err(ScriptError::InvalidToken(vstd::slice::slice_to_vec(t))),
    }
}

/// What the token `s` resolves to in profile `p`, as `parse_token` says.
pub fn parse_op(p: Profile, s: &str) -> (r: Result<Option<u8>, ScriptError>)
    ensures
        match r {
            Ok(v) => token_slot(p, s.spec_bytes()) == Some(v),
            Err(ScriptError::InvalidToken(u)) => token_slot(p, s.spec_bytes()) is None && u@
                == s.spec_bytes(),
        },
{
    parse_token(p, s.as_bytes())
}

/// The digit of `n` (below 16) in lower-case hexadecimal.
fn hex_digit(n: u8) -> (r: u8)
    requires
        n < 16,
    ensures
        r == hex_digit_char(n),
{
    if n < 10 {
        '0' as u8 + n
    } else {
        'a' as u8 + n - 10
    }
}

/// Byte `b` written as the token `0xHH`.
pub fn hex_token(b: u8) -> (r: Vec<u8>)
    ensures
        r@ == hex_token_of(b),
{
    let r = vec!['0' as u8, 'x' as u8, hex_digit(b / 16), hex_digit(b % 16)];
    assert(r@ =~= hex_token_of(b));
    r
}

proof fn lemma_hex_digit_value(n: u8)
    requires
        n < 16,
    ensures
        digit_value(hex_digit_char(n), 16) == Some(n as nat),
{
}

/// Every byte written `0xHH` reads back as that byte, in every profile.
pub proof fn lemma_hex_token_parses(p: Profile, b: u8)
    ensures
        token_slot(p, hex_token_of(b)) == Some(Some(b)),
{
    let t = hex_token_of(b);
    let digits = t.subrange(2, 4);
    assert(digits.drop_last() =~= seq![hex_digit_char(b / 16)]);
    assert(digits.drop_last().drop_last() =~= Seq::<u8>::empty());
    lemma_hex_digit_value(b / 16);
    lemma_hex_digit_value(b % 16);
    assert(digits[0] == hex_digit_char(b / 16));
    assert(digits[1] == hex_digit_char(b % 16));
    assert(digits.drop_last().last() == hex_digit_char(b / 16));
    assert(digits.last() == hex_digit_char(b % 16));
    assert(numeral_value(digits.drop_last().drop_last(), 16) == 0);
    assert(numeral_value(digits.drop_last(), 16) == (b / 16) as nat);
    assert(numeral_value(digits, 16) == b as nat);
}

/// A token that resolves to a byte, written again as `0xHH`, resolves to the
/// same byte.
pub proof fn lemma_hex_round_trip(p: Profile, t: Seq<u8>)
    requires
        token_slot(p, t) matches Some(Some(_)),
    ensures
        token_slot(p, hex_token_of(token_slot(p, t).unwrap().unwrap())) == token_slot(p, t),
{
    lemma_hex_token_parses(p, token_slot(p, t).unwrap().unwrap());
}

} // verus!
