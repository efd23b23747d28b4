use vstd::prelude::*;
use vstd::string::StringExecFns;

use crate::net::codec::{be_bytes, write_i32_to, write_u8_to, WriteError};
use crate::text::text_eq;
use crate::types::player::Gamemode;

verus! {

/// A white-space character, as Unicode's White_Space property (and `split_whitespace`)
/// has it.
pub open spec fn is_white(c: char) -> bool {
    ||| c == ' '
    ||| c == '\t'
    ||| c == '\n'
    ||| c == '\x0B'
    ||| c == '\x0C'
    ||| c == '\r'
    ||| c == '\u{85}'
    ||| c == '\u{A0}'
    ||| c == '\u{1680}'
    ||| ('\u{2000}' <= c && c <= '\u{200A}')
    ||| c == '\u{2028}'
    ||| c == '\u{2029}'
    ||| c == '\u{202F}'
    ||| c == '\u{205F}'
    ||| c == '\u{3000}'
}

fn white(c: char) -> (r: bool)
    ensures
        r == is_white(c),
{
    c == ' ' || c == '\t' || c == '\n' || c == '\x0B' || c == '\x0C' || c == '\r' || c == '\u{85}'
        || c == '\u{A0}' || c == '\u{1680}' || ('\u{2000}' <= c && c <= '\u{200A}') || c
        == '\u{2028}' || c == '\u{2029}' || c == '\u{202F}' || c == '\u{205F}' || c == '\u{3000}'
}

/// The words of `s`: its maximal runs of non-white-space characters, in order.
pub open spec fn words(s: Seq<char>) -> Seq<Seq<char>>
    decreases s.len(),
{
    if s.len() == 0 {
        Seq::empty()
    } else {
        let prev = words(s.drop_last());
        if is_white(s.last()) {
            prev
        } else if s.len() >= 2 && !is_white(s[s.len() - 2]) {
            prev.update(prev.len() - 1, prev.last().push(s.last()))
        } else {
            prev.push(seq![s.last()])
        }
    }
}

/// A word holds at least one character and no white space.
pub open spec fn clean_word(w: Seq<char>) -> bool {
    w.len() > 0 && forall|k: int| 0 <= k < w.len() ==> !is_white(#[trigger] w[k])
}

/// The words of a text are never empty and hold no white space; a text that ends in a
/// character other than white space has at least one word.
pub proof fn lemma_words_clean(s: Seq<char>)
    ensures
        forall|i: int| 0 <= i < words(s).len() ==> clean_word(#[trigger] words(s)[i]),
        s.len() > 0 && !is_white(s.last()) ==> words(s).len() > 0,
    decreases s.len(),
{
    if s.len() > 0 {
        let prev = words(s.drop_last());
        lemma_words_clean(s.drop_last());
        if is_white(s.last()) {
        } else if s.len() >= 2 && !is_white(s[s.len() - 2]) {
            assert(s.drop_last().last() == s[s.len() - 2]);
            let w = prev.last().push(s.last());
            assert(clean_word(w)) by {
                assert(clean_word(prev[prev.len() - 1]));
                assert forall|k: int| 0 <= k < w.len() implies !is_white(#[trigger] w[k]) by {
                    if k < w.len() - 1 {
                        assert(w[k] == prev.last()[k]);
                    }
                }
            }
            assert forall|i: int| 0 <= i < words(s).len() implies clean_word(#[trigger] words(s)[i]) by {
                if i < prev.len() - 1 {
                    assert(words(s)[i] == prev[i]);
                }
            }
        } else {
            assert forall|i: int| 0 <= i < words(s).len() implies clean_word(#[trigger] words(s)[i]) by {
                if i < prev.len() {
                    assert(words(s)[i] == prev[i]);
                } else {
                    assert(words(s)[i] == seq![s.last()]);
                }
            }
        }
    }
}

/// Splits a command into its words, as `split_whitespace` does.
pub fn split_words(s: &str) -> (r: Vec<String>)
    ensures
        r@.map_values(|t: String| t@) == words(s@),
{
    let n = s.unicode_len();
    let mut out: Vec<String> = Vec::new();
    let mut i: usize = 0;
    let mut start: usize = 0;
    let mut in_word = false;
    while i < n
        invariant
            n == s@.len(),
            i <= n,
            start <= i,
            in_word ==> start < i,
            in_word == (i > 0 && !is_white(s@[i - 1])),
            in_word ==> (forall|k: int| start <= k < i ==> !is_white(s@[k])),
            in_word ==> (start == 0 || is_white(s@[start - 1])),
            in_word ==> words(s@.subrange(0, i as int)) == out@.map_values(|t: String| t@).push(
                s@.subrange(start as int, i as int),
            ),
            !in_word ==> words(s@.subrange(0, i as int)) == out@.map_values(|t: String| t@),
        decreases n - i,
    {
        let c = s.get_char(i);
        let ghost pre = s@.subrange(0, i as int);
        let ghost cur = s@.subrange(0, i + 1);
        assert(cur.drop_last() =~= pre);
        assert(cur.last() == c);
        if white(c) {
            if in_word {
                let w = s.substring_char(start, i);
                let ghost o = out@;
                out.push(String::from_str(w));
                assert(out@.map_values(|t: String| t@) =~= o.map_values(|t: String| t@).push(
                    s@.subrange(start as int, i as int),
                ));
            }
            in_word = false;
        } else {
            if in_word {
                proof {
                    assert(cur.len() >= 2 && !is_white(cur[cur.len() - 2]));
                    let prev = words(pre);
                    assert(prev.last() == s@.subrange(start as int, i as int));
                    assert(s@.subrange(start as int, i as int).push(c) =~= s@.subrange(
                        start as int,
                        i + 1,
                    ));
                    assert(words(cur) =~= out@.map_values(|t: String| t@).push(
                        s@.subrange(start as int, i + 1),
                    ));
                }
            } else {
                start = i;
                proof {
                    assert(s@.subrange(start as int, i + 1) =~= seq![c]);
                }
            }
            in_word = true;
        }
        i = i + 1;
    }
    assert(s@.subrange(0, n as int) =~= s@);
    if in_word {
        let w = s.substring_char(start, n);
        let ghost o = out@;
        out.push(String::from_str(w));
        assert(out@.map_values(|t: String| t@) =~= o.map_values(|t: String| t@).push(
            s@.subrange(start as int, n as int),
        ));
    }
    out
}

/// The value of a string of decimal digits.
pub open spec fn digits_value(d: Seq<char>) -> int
    decreases d.len(),
{
    if d.len() == 0 {
        0
    } else {
        digits_value(d.drop_last()) * 10 + (d.last() as int - '0' as int)
    }
}

/// Every character is an ASCII digit.
pub open spec fn all_digits(d: Seq<char>) -> bool {
    forall|k: int| 0 <= k < d.len() ==> '0' <= #[trigger] d[k] <= '9'
}

/// The `i32` that `t` writes, as `str::parse::<i32>` reads it: an optional `+` or `-`,
/// then at least one decimal digit, the value in range.
pub open spec fn parsed_i32(t: Seq<char>) -> Option<i32> {
    let neg = t.len() > 0 && t[0] == '-';
    let body = if t.len() > 0 && (t[0] == '-' || t[0] == '+') {
        t.drop_first()
    } else {
        t
    };
    let v = if neg {
        -digits_value(body)
    } else {
        digits_value(body)
    };
    if body.len() == 0 || !all_digits(body) || v < i32::MIN || v > i32::MAX {
        None
    } else {
        Some(v as i32)
    }
}

proof fn lemma_digits_grow(d: Seq<char>, i: int)
    requires
        0 <= i <= d.len(),
        all_digits(d),
    ensures
        digits_value(d.subrange(0, i)) <= digits_value(d),
        0 <= digits_value(d.subrange(0, i)),
    decreases d.len() - i,
{
    if i < d.len() {
        lemma_digits_grow(d, i + 1);
        assert(d.subrange(0, i + 1).drop_last() =~= d.subrange(0, i));
        assert('0' <= d[i] <= '9');
    } else {
        assert(d.subrange(0, i) =~= d);
        lemma_digits_nonneg(d);
    }
}

proof fn lemma_digits_nonneg(d: Seq<char>)
    requires
        all_digits(d),
    ensures
        0 <= digits_value(d),
    decreases d.len(),
{
    if d.len() > 0 {
        assert(all_digits(d.drop_last())) by {
            assert forall|k: int| 0 <= k < d.drop_last().len() implies '0' <= #[trigger] d.drop_last()[k]
                <= '9' by {
                assert(d.drop_last()[k] == d[k]);
            }
        }
        lemma_digits_nonneg(d.drop_last());
        assert('0' <= d[d.len() - 1] <= '9');
    }
}

/// Reads a word as `str::parse::<i32>` does.
pub fn parse_i32(t: &str) -> (r: Option<i32>)
    ensures
        r == parsed_i32(t@),
{
    let n = t.unicode_len();
    if n == 0 {
        return None;
    }
    let first = t.get_char(0);
    let neg = first == '-';
    let start: usize = if first == '-' || first == '+' {
        1
    } else {
        0
    };
    let ghost body = if first == '-' || first == '+' {
        t@.drop_first()
    } else {
        t@
    };
    assert(body =~= t@.subrange(start as int, n as int));
    if start == n {
        return None;
    }
    let mut acc: i64 = 0;
    let mut i: usize = start;
    while i < n
        invariant
            n == t@.len(),
            n > 0,
            first == t@[0],
            neg == (first == '-'),
            start == (if first == '-' || first == '+' {
                1usize
            } else {
                0usize
            }),
            body == (if first == '-' || first == '+' {
                t@.drop_first()
            } else {
                t@
            }),
            start <= i <= n,
            body == t@.subrange(start as int, n as int),
            forall|k: int| start <= k < i ==> '0' <= #[trigger] t@[k] <= '9',
            acc == digits_value(t@.subrange(start as int, i as int)),
            0 <= acc <= 0x8000_0000,
        decreases n - i,
    {
        let c = t.get_char(i);
        let ghost pre = t@.subrange(start as int, i as int);
        assert(t@.subrange(start as int, i + 1).drop_last() =~= pre);
        if !('0' <= c && c <= '9') {
            proof {
                assert(body[i - start] == c);
                assert(!all_digits(body));
            }
            return None;
        }
        let d = (c as u32 - '0' as u32) as i64;
        acc = acc * 10 + d;
        assert(acc == digits_value(t@.subrange(start as int, i + 1)));
        if acc > 0x8000_0000 {
            proof {
                assert(all_digits(t@.subrange(start as int, i + 1))) by {
                    assert forall|k: int| 0 <= k < i + 1 - start implies '0'
                        <= #[trigger] t@.subrange(start as int, i + 1)[k] <= '9' by {
                        assert(t@.subrange(start as int, i + 1)[k] == t@[start + k]);
                    }
                }
                if all_digits(body) {
                    lemma_digits_grow(body, i + 1 - start);
                    assert(body.subrange(0, i + 1 - start) =~= t@.subrange(start as int, i + 1));
                }
            }
            return None;
        }
        i = i + 1;
    }
    proof {
        assert(all_digits(body)) by {
            assert forall|k: int| 0 <= k < body.len() implies '0' <= #[trigger] body[k] <= '9' by {
                assert(body[k] == t@[start + k]);
            }
        }
        assert(t@.subrange(start as int, n as int) =~= body);
    }
    let v: i64 = if neg {
        -acc
    } else {
        acc
    };
    if v < -0x8000_0000 || v > 0x7fff_ffff {
        None
    } else {
        Some(v as i32)
    }
}

/// `c` with an ASCII capital turned to lower case.
pub open spec fn ascii_lower(c: char) -> char {
    if 'A' <= c && c <= 'Z' {
        ((c as u32) + 32) as char
    } else {
        c
    }
}

/// `t` lowercased is the all-lowercase ASCII word `w`. (For such a word, Unicode
/// lowercasing and ASCII lowercasing agree: no other character lowercases into one of
/// its letters.)
pub open spec fn lower_is(t: Seq<char>, w: Seq<char>) -> bool {
    t.len() == w.len() && forall|k: int| 0 <= k < t.len() ==> ascii_lower(#[trigger] t[k]) == w[k]
}

fn lower_eq(t: &str, w: &str) -> (r: bool)
    ensures
        r == lower_is(t@, w@),
{
    let n = t.unicode_len();
    if n != w.unicode_len() {
        return false;
    }
    let mut i: usize = 0;
    while i < n
        invariant
            n == t@.len(),
            n == w@.len(),
            i <= n,
            forall|k: int| 0 <= k < i ==> ascii_lower(#[trigger] t@[k]) == w@[k],
        decreases n - i,
    {
        let c = t.get_char(i);
        let lc = if 'A' <= c && c <= 'Z' {
            ((c as u8) + 32) as char
        } else {
            c
        };
        assert(lc == ascii_lower(c)) by {
            if 'A' <= c && c <= 'Z' {
                assert(((c as u8) + 32) as char == ((c as u32) + 32) as char);
            }
        }
        if lc != w.get_char(i) {
            return false;
        }
        i = i + 1;
    }
    true
}

/// The game mode a word names: survival (`survival`, `s`, `0`), creative (`creative`,
/// `c`, `1`), adventure (`adventure`, `a`, `2`) or spectator (`spectator`, `sp`, `3`),
/// in any case.
pub open spec fn gamemode_named(t: Seq<char>) -> Option<Gamemode> {
    if lower_is(t, "survival"@) || lower_is(t, "s"@) || lower_is(t, "0"@) {
        Some(Gamemode::Survival)
    } else if lower_is(t, "creative"@) || lower_is(t, "c"@) || lower_is(t, "1"@) {
        Some(Gamemode::Creative)
    } else if lower_is(t, "adventure"@) || lower_is(t, "a"@) || lower_is(t, "2"@) {
        Some(Gamemode::Adventure)
    } else if lower_is(t, "spectator"@) || lower_is(t, "sp"@) || lower_is(t, "3"@) {
        Some(Gamemode::Spectator)
    } else {
        None
    }
}

/// The words that name game modes, in any case: "survival", "s" and "0" name survival;
/// "creative", "c" and "1" creative; "adventure", "a" and "2" adventure; "spectator",
/// "sp" and "3" spectator. Any other word names none.
pub proof fn lemma_gamemode_words(t: Seq<char>)
    ensures
        lower_is(t, "survival"@) || lower_is(t, "s"@) || lower_is(t, "0"@) ==> gamemode_named(t)
            == Some(Gamemode::Survival),
        lower_is(t, "creative"@) || lower_is(t, "c"@) || lower_is(t, "1"@) ==> gamemode_named(t)
            == Some(Gamemode::Creative),
        lower_is(t, "adventure"@) || lower_is(t, "a"@) || lower_is(t, "2"@) ==> gamemode_named(t)
            == Some(Gamemode::Adventure),
        lower_is(t, "spectator"@) || lower_is(t, "sp"@) || lower_is(t, "3"@) ==> gamemode_named(t)
            == Some(Gamemode::Spectator),
        !(lower_is(t, "survival"@) || lower_is(t, "s"@) || lower_is(t, "0"@) || lower_is(t, "creative"@)
            || lower_is(t, "c"@) || lower_is(t, "1"@) || lower_is(t, "adventure"@) || lower_is(t, "a"@)
            || lower_is(t, "2"@) || lower_is(t, "spectator"@) || lower_is(t, "sp"@) || lower_is(t, "3"@))
            ==> gamemode_named(t) is None,
{
    reveal_strlit("survival");
    reveal_strlit("s");
    reveal_strlit("0");
    reveal_strlit("creative");
    reveal_strlit("c");
    reveal_strlit("1");
    reveal_strlit("adventure");
    reveal_strlit("a");
    reveal_strlit("2");
    reveal_strlit("spectator");
    reveal_strlit("sp");
    reveal_strlit("3");
    if t.len() >= 1 {
        let c = ascii_lower(t[0]);
        assert(lower_is(t, "s"@) ==> c == 's');
        assert(lower_is(t, "0"@) ==> c == '0');
        assert(lower_is(t, "c"@) ==> c == 'c');
        assert(lower_is(t, "1"@) ==> c == '1');
        assert(lower_is(t, "a"@) ==> c == 'a');
        assert(lower_is(t, "2"@) ==> c == '2');
        assert(lower_is(t, "3"@) ==> c == '3');
        assert(lower_is(t, "sp"@) ==> c == 's');
        assert(lower_is(t, "survival"@) ==> c == 's');
        assert(lower_is(t, "creative"@) ==> c == 'c');
        assert(lower_is(t, "adventure"@) ==> c == 'a');
        assert(lower_is(t, "spectator"@) ==> c == 's');
    }
    if t.len() >= 2 {
        let c = ascii_lower(t[1]);
        assert(lower_is(t, "sp"@) ==> c == 'p');
        assert(lower_is(t, "survival"@) ==> c == 'u');
        assert(lower_is(t, "spectator"@) ==> c == 'p');
    }
}

/// Reads the game mode a word names.
pub fn parse_gamemode(t: &str) -> (r: Option<Gamemode>)
    ensures
        r == gamemode_named(t@),
{
    if lower_eq(t, "survival") || lower_eq(t, "s") || lower_eq(t, "0") {
        Some(Gamemode::Survival)
    } else if lower_eq(t, "creative") || lower_eq(t, "c") || lower_eq(t, "1") {
        Some(Gamemode::Creative)
    } else if lower_eq(t, "adventure") || lower_eq(t, "a") || lower_eq(t, "2") {
        Some(Gamemode::Adventure)
    } else if lower_eq(t, "spectator") || lower_eq(t, "sp") || lower_eq(t, "3") {
        Some(Gamemode::Spectator)
    } else {
        None
    }
}

/// The game mode a configured name gives, and whether the name is one of the four.
pub open spec fn configured_of(name: Seq<char>) -> (Gamemode, bool) {
    if name == "survival"@ {
        (Gamemode::Survival, true)
    } else if name == "creative"@ {
        (Gamemode::Creative, true)
    } else if name == "adventure"@ {
        (Gamemode::Adventure, true)
    } else if name == "spectator"@ {
        (Gamemode::Spectator, true)
    } else {
        (Gamemode::Survival, false)
    }
}

/// The game mode a configuration names exactly (`survival`, `creative`, `adventure`,
/// `spectator`), survival for any other name; the flag says whether the name was known.
pub fn configured_gamemode(name: &str) -> (r: (Gamemode, bool))
    ensures
        r == configured_of(name@),
{
    if text_eq(name, "survival") {
        (Gamemode::Survival, true)
    } else if text_eq(name, "creative") {
        (Gamemode::Creative, true)
    } else if text_eq(name, "adventure") {
        (Gamemode::Adventure, true)
    } else if text_eq(name, "spectator") {
        (Gamemode::Spectator, true)
    } else {
        (Gamemode::Survival, false)
    }
}

/// What a chat command asks for, decided from its words. The words it refers to are
/// those of the command: the item is word 1, the amount word 2, the mode word 1.
#[derive(Clone, Copy, Debug, PartialEq, Eq, Structural)]
pub enum CommandOutcome {
    /// Show the ticks per second.
    Tps,
    /// Show the server's version.
    Version,
    /// `/give` with fewer than two arguments.
    GiveUsage,
    /// `/give` with an amount that is not an `i32`.
    InvalidAmount,
    /// Give `amount` of the item named by word 1.
    Give { amount: i32 },
    /// `/gamemode` without an argument.
    GamemodeUsage,
    /// `/gamemode` with a word that names no mode.
    UnknownGamemode,
    /// Set the player's game mode.
    SetGamemode(Gamemode),
    /// No command has the name of word 0.
    Unknown,
}

/// What the command made of `w` (at least one word) asks for.
pub open spec fn outcome_of(w: Seq<Seq<char>>) -> CommandOutcome {
    if w[0] == "tps"@ {
        CommandOutcome::Tps
    } else if w[0] == "version"@ {
        CommandOutcome::Version
    } else if w[0] == "give"@ {
        if w.len() < 3 {
            CommandOutcome::GiveUsage
        } else {
            match parsed_i32(w[2]) {
                Some(amount) => CommandOutcome::Give { amount },
                None => CommandOutcome::InvalidAmount,
            }
        }
    } else if w[0] == "gamemode"@ {
        if w.len() < 2 {
            CommandOutcome::GamemodeUsage
        } else {
            match gamemode_named(w[1]) {
                Some(g) => CommandOutcome::SetGamemode(g),
                None => CommandOutcome::UnknownGamemode,
            }
        }
    } else {
        CommandOutcome::Unknown
    }
}

fn word_is(t: &String, w: &str) -> (r: bool)
    ensures
        r == (t@ == w@),
{
    crate::text::text_eq(t.as_str(), w)
}

/// Decides what a chat command asks for, from its words.
pub fn command_outcome(words: &[String]) -> (r: CommandOutcome)
    requires
        words@.len() >= 1,
    ensures
        r == outcome_of(words@.map_values(|t: String| t@)),
{
    let ghost w = words@.map_values(|t: String| t@);
    assert(w[0] == words@[0]@);
    if word_is(&words[0], "tps") {
        CommandOutcome::Tps
    } else if word_is(&words[0], "version") {
        CommandOutcome::Version
    } else if word_is(&words[0], "give") {
        if words.len() < 3 {
            CommandOutcome::GiveUsage
        } else {
            assert(w[2] == words@[2]@);
            match parse_i32(words[2].as_str()) {
                Some(amount) => CommandOutcome::Give { amount },
                None => CommandOutcome::InvalidAmount,
            }
        }
    } else if word_is(&words[0], "gamemode") {
        if words.len() < 2 {
            CommandOutcome::GamemodeUsage
        } else {
            assert(w[1] == words@[1]@);
            match parse_gamemode(words[1].as_str()) {
                Some(g) => CommandOutcome::SetGamemode(g),
                None => CommandOutcome::UnknownGamemode,
            }
        }
    } else {
        CommandOutcome::Unknown
    }
}

/// The reply to a command whose name no command has: in red, the name after a slash.
pub fn unknown_command_reply(name: &str) -> (r: String)
    ensures
        r@ == "\u{a7}cUnknown command: /"@ + name@,
{
    String::from_str("\u{a7}cUnknown command: /").concat(name)
}

/// The reply to a command for operators sent by a player who is not one, in red.
pub fn no_permission_reply() -> (r: String)
    ensures
        r@ == "\u{a7}cYou do not have permission to use this command."@,
{
    String::from_str("\u{a7}cYou do not have permission to use this command.")
}

/// The colour a ticks-per-second figure is shown in.
#[derive(Clone, Copy, Debug, PartialEq, Eq, Structural)]
pub enum TpsColor {
    Green,
    Yellow,
    Red,
}

/// Green from 18 ticks per second up, yellow from 15, red below.
pub fn tps_color(tps: u32) -> (r: TpsColor)
    ensures
        r == (if tps >= 18 {
            TpsColor::Green
        } else if tps >= 15 {
            TpsColor::Yellow
        } else {
            TpsColor::Red
        }),
{
    if tps >= 18 {
        TpsColor::Green
    } else if tps >= 15 {
        TpsColor::Yellow
    } else {
        TpsColor::Red
    }
}

/// How the client parses a command argument, for its suggestions.
#[derive(Clone, Copy, Debug, PartialEq, Eq, Structural)]
pub enum Parser {
    Integer { min: Option<i32>, max: Option<i32> },
    GameProfile,
    ItemStack,
    Gamemode,
}

/// The bytes of an optional bound: its big-endian bits, or nothing.
pub open spec fn bound_bytes(b: Option<i32>) -> Seq<u8> {
    match b {
        Some(v) => be_bytes((v as u32) as nat, 4),
        None => Seq::empty(),
    }
}

/// The properties a parser sends: for an integer, a flags byte (1: has a minimum,
/// 2: has a maximum) then the bounds it has; nothing for the others.
pub open spec fn parser_props(p: Parser) -> Seq<u8> {
    match p {
        Parser::Integer { min, max } => seq![
            ((if min is Some {
                1u8
            } else {
                0u8
            }) | (if max is Some {
                2u8
            } else {
                0u8
            })) as u8,
        ] + bound_bytes(min) + bound_bytes(max),
        _ => Seq::empty(),
    }
}

impl Parser {
    /// The parser's id in the protocol's registry of argument types.
    pub fn id(&self) -> (r: i32)
        ensures
            r == match *self {
                Parser::Integer { .. } => 3i32,
                Parser::GameProfile => 7i32,
                Parser::ItemStack => 14i32,
                Parser::Gamemode => 42i32,
            },
    {
        match self {
            Parser::Integer { .. } => 3,
            Parser::GameProfile => 7,
            Parser::ItemStack => 14,
            Parser::Gamemode => 42,
        }
    }

    /// Appends the parser's properties to `w`.
    pub fn write_props(&self, w: &mut Vec<u8>) -> (r: Result<(), WriteError>)
        ensures
            r is Ok,
            final(w)@ == old(w)@ + parser_props(*self),
    {
        if let Parser::Integer { min, max } = self {
            let low: u8 = if min.is_some() {
                0x01
            } else {
                0
            };
            let high: u8 = if max.is_some() {
                0x02
            } else {
                0
            };
            let flags = low | high;
            let ghost start = w@;
            w.push(flags);
            if let Some(v) = min {
                write_i32_to(w, *v)?;
            }
            let ghost mid = w@;
            if let Some(v) = max {
                write_i32_to(w, *v)?;
            }
            assert(w@ =~= start + parser_props(*self));
        }
        Ok(())
    }
}

/// A command argument: its name and how the client parses it.
#[derive(Clone, Copy, Debug)]
pub struct Arg {
    pub name: &'static str,
    pub parser: Parser,
}

/// A command as the dispatcher sees it: its name and whether only operators may run it.
#[derive(Clone, Copy, Debug)]
pub struct CommandInfo {
    pub name: &'static str,
    pub requires_op: bool,
}

/// Where a command is sent.
#[derive(Clone, Copy, Debug, PartialEq, Eq, Structural)]
pub enum Dispatch {
    /// Run the command at this position of the table.
    Run(usize),
    /// The command is for operators and the player is not one.
    NoPermission,
    /// No command has this name.
    Unknown,
}

/// The first command of `table` named `name`, -1 where there is none.
pub open spec fn command_index(table: Seq<CommandInfo>, name: Seq<char>) -> int
    decreases table.len(),
{
    if table.len() == 0 {
        -1
    } else if table[0].name@ == name {
        0
    } else {
        let r = command_index(table.drop_first(), name);
        if r < 0 {
            -1
        } else {
            r + 1
        }
    }
}

/// Where the command named `name` goes: the first command of that name, unless it is for
/// operators and the player is not one.
pub open spec fn dispatch_of(table: Seq<CommandInfo>, name: Seq<char>, is_op: bool) -> Dispatch {
    let k = command_index(table, name);
    if k < 0 {
        Dispatch::Unknown
    } else if table[k].requires_op && !is_op {
        Dispatch::NoPermission
    } else {
        Dispatch::Run(k as usize)
    }
}

proof fn lemma_command_index(table: Seq<CommandInfo>, name: Seq<char>, i: int)
    requires
        0 <= i <= table.len(),
        forall|k: int| 0 <= k < i ==> table[k].name@ != name,
    ensures
        i < table.len() && table[i].name@ == name ==> command_index(table, name) == i,
        i == table.len() ==> command_index(table, name) == -1,
    decreases table.len(),
{
    if table.len() > 0 && i > 0 {
        lemma_command_index(table.drop_first(), name, i - 1);
    }
}

/// Sends the command named `name` to the first command of that name in `table`.
pub fn dispatch_command(table: &[CommandInfo], name: &str, is_op: bool) -> (r: Dispatch)
    ensures
        r == dispatch_of(table@, name@, is_op),
{
    let mut i: usize = 0;
    while i < table.len()
        invariant
            i <= table@.len(),
            forall|k: int| 0 <= k < i ==> table@[k].name@ != name@,
        decreases table@.len() - i,
    {
        if text_eq(table[i].name, name) {
            proof {
                lemma_command_index(table@, name@, i as int);
            }
            if table[i].requires_op && !is_op {
                return Dispatch::NoPermission;
            }
            return Dispatch::Run(i);
        }
        i = i + 1;
    }
    proof {
        lemma_command_index(table@, name@, i as int);
    }
    Dispatch::Unknown
}

/// What a chat command gets: a reply to send and nothing else, or the command of the
/// table to run.
pub enum CommandResponse {
    /// Send this message to the player; nothing else happens.
    Reply(String),
    /// Run command `k` of the table.
    Run(usize),
}

/// Answers a chat command of the words `words` (at least one) from a player who is an
/// operator or not: a name no command of `table` has is answered "Unknown command", an
/// operators' command from another player is answered "no permission", and any other is
/// run.
pub fn handle_command(table: &[CommandInfo], words: &[String], is_op: bool) -> (r: CommandResponse)
    requires
        words@.len() >= 1,
    ensures
        match dispatch_of(table@, words@[0]@, is_op) {
            Dispatch::Unknown => r matches CommandResponse::Reply(m) && m@
                == "\u{a7}cUnknown command: /"@ + words@[0]@,
            Dispatch::NoPermission => r matches CommandResponse::Reply(m) && m@
                == "\u{a7}cYou do not have permission to use this command."@,
            Dispatch::Run(k) => r matches CommandResponse::Run(j) && j == k,
        },
{
    match dispatch_command(table, words[0].as_str(), is_op) {
        Dispatch::Unknown => CommandResponse::Reply(unknown_command_reply(words[0].as_str())),
        Dispatch::NoPermission => CommandResponse::Reply(no_permission_reply()),
        Dispatch::Run(k) => CommandResponse::Run(k),
    }
}

} // verus!
