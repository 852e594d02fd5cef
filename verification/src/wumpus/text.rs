//! The textual forms of actions, facings, events, coordinates and tallies.
//!
//! Actions, facings and events are written as lower-case keywords, a set of
//! events as the keywords of its raised flags joined by commas, a coordinate
//! as `(x,y)` and a tally as `(treasure,wumpus,pit)`.

use vstd::prelude::*;
use vstd::string::StringExecFns;
use vstd::std_specs::iter::IteratorSpec;
use crate::wumpus::action::Action;
use crate::wumpus::class::ClassField;
use crate::wumpus::events::Events;
use crate::wumpus::geometry::Coordinate;
use crate::wumpus::geometry::Direction;

verus! {

/// The characters of `text`.
pub fn chars_of(text: &str) -> (r: Vec<char>)
    ensures
        r@ == text@,
{
    let mut chars: Vec<char> = Vec::new();
    let it0 = text.chars();
    for c in it: it0
        invariant
            chars@ == it.seq().take(it.index() as int),
    {
        chars.push(c);
    }
    chars
}

/// Whether two texts are the same.
pub fn same_text(a: &str, b: &str) -> (r: bool)
    ensures
        r == (a@ == b@),
{
    let x = a.to_owned();
    let y = b.to_owned();
    x == y
}

impl Direction {
    /// The keyword of a facing.
    pub open spec fn spec_keyword(self) -> Seq<char> {
        match self {
            Direction::East => "east"@,
            Direction::South => "south"@,
            Direction::West => "west"@,
            Direction::North => "north"@,
        }
    }

    /// The facing that `text` names, if it names one.
    pub open spec fn spec_parse(text: Seq<char>) -> Option<Direction> {
        if text == "east"@ {
            Some(Direction::East)
        } else if text == "south"@ {
            Some(Direction::South)
        } else if text == "west"@ {
            Some(Direction::West)
        } else if text == "north"@ {
            Some(Direction::North)
        } else {
            None
        }
    }

    /// The keyword of the facing.
    pub fn keyword(&self) -> (r: &'static str)
        ensures
            r@ == self.spec_keyword(),
    {
        match self {
            Direction::East => "east",
            Direction::South => "south",
            Direction::West => "west",
            Direction::North => "north",
        }
    }

    /// The keyword of the facing, as a string of its own.
    pub fn to_text(&self) -> (r: String)
        ensures
            r@ == self.spec_keyword(),
    {
        String::from_str(self.keyword())
    }

    /// Reads a facing from its keyword.
    pub fn parse(text: &str) -> (r: Option<Direction>)
        ensures
            r == Direction::spec_parse(text@),
    {
        if same_text(text, "east") {
            Some(Direction::East)
        } else if same_text(text, "south") {
            Some(Direction::South)
        } else if same_text(text, "west") {
            Some(Direction::West)
        } else if same_text(text, "north") {
            Some(Direction::North)
        } else {
            None
        }
    }
}

impl Action {
    /// The keyword of an action.
    pub open spec fn spec_keyword(self) -> Seq<char> {
        match self {
            Action::Walk => "walk"@,
            Action::Left => "left"@,
            Action::Right => "right"@,
            Action::Dig => "dig"@,
            Action::Shoot => "shoot"@,
        }
    }

    /// The action that `text` names, if it names one.
    pub open spec fn spec_parse(text: Seq<char>) -> Option<Action> {
        if text == "walk"@ {
            Some(Action::Walk)
        } else if text == "left"@ {
            Some(Action::Left)
        } else if text == "right"@ {
            Some(Action::Right)
        } else if text == "dig"@ {
            Some(Action::Dig)
        } else if text == "shoot"@ {
            Some(Action::Shoot)
        } else {
            None
        }
    }

    /// The keyword of the action.
    pub fn keyword(&self) -> (r: &'static str)
        ensures
            r@ == self.spec_keyword(),
    {
        match self {
            Action::Walk => "walk",
            Action::Left => "left",
            Action::Right => "right",
            Action::Dig => "dig",
            Action::Shoot => "shoot",
        }
    }

    /// The keyword of the action, as a string of its own.
    pub fn to_text(&self) -> (r: String)
        ensures
            r@ == self.spec_keyword(),
    {
        String::from_str(self.keyword())
    }

    /// Reads an action from its keyword.
    pub fn parse(text: &str) -> (r: Option<Action>)
        ensures
            r == Action::spec_parse(text@),
    {
        if same_text(text, "walk") {
            Some(Action::Walk)
        } else if same_text(text, "left") {
            Some(Action::Left)
        } else if same_text(text, "right") {
            Some(Action::Right)
        } else if same_text(text, "dig") {
            Some(Action::Dig)
        } else if same_text(text, "shoot") {
            Some(Action::Shoot)
        } else {
            None
        }
    }
}

/// A keyword read back gives the facing it was written for.
pub proof fn lemma_direction_round_trip(direction: Direction)
    ensures
        Direction::spec_parse(direction.spec_keyword()) == Some(direction),
{
    reveal_strlit("east");
    reveal_strlit("south");
    reveal_strlit("west");
    reveal_strlit("north");
    assert("east"@[0] != "south"@[0]);
    assert("east"@[0] != "west"@[0]);
}

/// A keyword read back gives the action it was written for.
pub proof fn lemma_action_round_trip(action: Action)
    ensures
        Action::spec_parse(action.spec_keyword()) == Some(action),
{
    reveal_strlit("walk");
    reveal_strlit("left");
    reveal_strlit("right");
    reveal_strlit("dig");
    reveal_strlit("shoot");
    assert("walk"@[0] != "left"@[0]);
    assert("walk"@[0] != "right"@[0]);
    assert("walk"@[0] != "dig"@[0]);
}

/// The words joined by commas.
pub open spec fn joined(words: Seq<Seq<char>>) -> Seq<char>
    decreases words.len(),
{
    if words.len() == 0 {
        Seq::empty()
    } else if words.len() == 1 {
        words[0]
    } else {
        joined(words.drop_last()) + seq![','] + words.last()
    }
}

/// `words`, with `word` added at the end if `raised`.
pub open spec fn with_word(words: Seq<Seq<char>>, raised: bool, word: Seq<char>) -> Seq<Seq<char>> {
    if raised {
        words.push(word)
    } else {
        words
    }
}

/// The characters of each of `words`.
pub open spec fn views_of(words: Seq<&'static str>) -> Seq<Seq<char>> {
    Seq::new(words.len(), |i: int| words[i]@)
}

/// Adds `word` to `words` if `raised`.
fn add_word(words: &mut Vec<&'static str>, raised: bool, word: &'static str)
    ensures
        views_of(final(words)@) == with_word(views_of(old(words)@), raised, word@),
{
    if raised {
        words.push(word);
    }
}

/// Whether the characters of `text` from `from` up to `to` are one of the
/// pieces into which its commas cut it.
pub open spec fn is_segment(text: Seq<char>, from: int, to: int) -> bool {
    &&& 0 <= from <= to <= text.len()
    &&& from == 0 || text[from - 1] == ','
    &&& to == text.len() || text[to] == ','
    &&& forall|k: int| from <= k < to ==> text[k] != ','
}

/// Whether `word` is one of the pieces into which the commas cut `text`.
pub open spec fn has_word(text: Seq<char>, word: Seq<char>) -> bool {
    exists|from: int, to: int| is_segment(text, from, to) && text.subrange(from, to) == word
}

/// Whether `word` is one of the pieces into which the commas cut `text`.
pub fn contains_word(text: &Vec<char>, word: &Vec<char>) -> (r: bool)
    ensures
        r == has_word(text@, word@),
{
    let mut start: usize = 0;
    loop
        invariant_except_break
            start <= text.len(),
            start == 0 || text@[start - 1] == ',',
            forall|from: int, to: int|
                is_segment(text@, from, to) && from < start ==> text@.subrange(from, to) != word@,
        ensures
            !has_word(text@, word@),
        decreases text.len() - start,
    {
        let mut end: usize = start;
        while end < text.len() && text[end] != ','
            invariant
                start <= end <= text.len(),
                forall|k: int| start <= k < end ==> text@[k] != ',',
            decreases text.len() - end,
        {
            end += 1;
        }
        let mut matches = end - start == word.len();
        let mut i: usize = 0;
        while matches && i < word.len()
            invariant
                start <= end <= text.len(),
                i <= word.len(),
                matches ==> end - start == word.len(),
                matches ==> forall|k: int| 0 <= k < i ==> text@[start + k] == word@[k],
                !matches ==> text@.subrange(start as int, end as int) != word@,
            decreases word.len() - i + (if matches {
                1int
            } else {
                0int
            }),
        {
            if text[start + i] != word[i] {
                matches = false;
            } else {
                i += 1;
            }
        }
        if matches {
            assert(text@.subrange(start as int, end as int) =~= word@);
            return true;
        }
        proof {
            assert forall|from: int, to: int|
                is_segment(text@, from, to) && from < end + 1 implies text@.subrange(from, to)
                != word@ by {
            }
        }
        if end == text.len() {
            proof {
                assert forall|from: int, to: int| is_segment(text@, from, to) implies text@.subrange(
                    from,
                    to,
                ) != word@ by {}
            }
            break ;
        }
        start = end + 1;
    }
    false
}

impl Events {
    /// The keywords of the raised flags, in the order of the flags.
    pub open spec fn raised_words(self) -> Seq<Seq<char>> {
        let w0 = Seq::<Seq<char>>::empty();
        let w1 = with_word(w0, self.treasure, "treasure"@);
        let w2 = with_word(w1, self.wumpus, "wumpus"@);
        let w3 = with_word(w2, self.pit, "pit"@);
        let w4 = with_word(w3, self.glitter, "glitter"@);
        let w5 = with_word(w4, self.stench, "stench"@);
        let w6 = with_word(w5, self.breeze, "breeze"@);
        let w7 = with_word(w6, self.bonked, "bonked"@);
        let w8 = with_word(w7, self.scream, "scream"@);
        with_word(w8, self.gameover, "gameover"@)
    }

    /// The keywords of the raised flags, joined by commas.
    pub open spec fn spec_text(self) -> Seq<char> {
        joined(self.raised_words())
    }

    /// The events that `text` names: a flag is raised if its keyword is one
    /// of the pieces into which the commas cut the text.
    pub open spec fn spec_parse(text: Seq<char>) -> Events {
        Events {
            treasure: has_word(text, "treasure"@),
            wumpus: has_word(text, "wumpus"@),
            pit: has_word(text, "pit"@),
            glitter: has_word(text, "glitter"@),
            stench: has_word(text, "stench"@),
            breeze: has_word(text, "breeze"@),
            bonked: has_word(text, "bonked"@),
            scream: has_word(text, "scream"@),
            gameover: has_word(text, "gameover"@),
        }
    }

    /// The keywords of the raised flags, joined by commas.
    pub fn to_text(&self) -> (r: String)
        ensures
            r@ == self.spec_text(),
    {
        let mut words: Vec<&'static str> = Vec::new();
        assert(views_of(words@) =~= Seq::<Seq<char>>::empty());
        add_word(&mut words, self.treasure, "treasure");
        add_word(&mut words, self.wumpus, "wumpus");
        add_word(&mut words, self.pit, "pit");
        add_word(&mut words, self.glitter, "glitter");
        add_word(&mut words, self.stench, "stench");
        add_word(&mut words, self.breeze, "breeze");
        add_word(&mut words, self.bonked, "bonked");
        add_word(&mut words, self.scream, "scream");
        add_word(&mut words, self.gameover, "gameover");
        let ghost views = views_of(words@);
        let mut text = String::new();
        let mut i: usize = 0;
        while i < words.len()
            invariant
                i <= words.len(),
                words@.len() == views.len(),
                forall|k: int| 0 <= k < words@.len() ==> (#[trigger] words@[k])@ == views[k],
                text@ == joined(views.take(i as int)),
            decreases words.len() - i,
        {
            proof {
                reveal_strlit(",");
                let done = views.take(i as int);
                let more = views.take(i + 1);
                assert(more.drop_last() =~= done);
            }
            if i > 0 {
                text.append(",");
            }
            text.append(words[i]);
            i += 1;
        }
        assert(views.take(words.len() as int) =~= views);
        text
    }

    /// Reads a set of events from the keywords of its raised flags.
    pub fn parse(text: &str) -> (r: Events)
        ensures
            r == Events::spec_parse(text@),
    {
        let chars = chars_of(text);
        Events {
            treasure: contains_word(&chars, &chars_of("treasure")),
            wumpus: contains_word(&chars, &chars_of("wumpus")),
            pit: contains_word(&chars, &chars_of("pit")),
            glitter: contains_word(&chars, &chars_of("glitter")),
            stench: contains_word(&chars, &chars_of("stench")),
            breeze: contains_word(&chars, &chars_of("breeze")),
            bonked: contains_word(&chars, &chars_of("bonked")),
            scream: contains_word(&chars, &chars_of("scream")),
            gameover: contains_word(&chars, &chars_of("gameover")),
        }
    }
}

/// The character of a decimal digit.
pub open spec fn digit_char(digit: int) -> char {
    if digit == 0 {
        '0'
    } else if digit == 1 {
        '1'
    } else if digit == 2 {
        '2'
    } else if digit == 3 {
        '3'
    } else if digit == 4 {
        '4'
    } else if digit == 5 {
        '5'
    } else if digit == 6 {
        '6'
    } else if digit == 7 {
        '7'
    } else if digit == 8 {
        '8'
    } else {
        '9'
    }
}

/// Whether `c` is a decimal digit.
pub open spec fn is_digit(c: char) -> bool {
    '0' <= c <= '9'
}

/// The number that a decimal digit stands for.
pub open spec fn digit_value(c: char) -> int {
    c as int - '0' as int
}

/// Whether `text` is made of decimal digits only.
pub open spec fn all_digits(text: Seq<char>) -> bool {
    forall|i: int| 0 <= i < text.len() ==> is_digit(#[trigger] text[i])
}

/// The number that a row of decimal digits stands for.
pub open spec fn digits_value(text: Seq<char>) -> int
    decreases text.len(),
{
    if text.len() == 0 {
        0
    } else {
        digits_value(text.drop_last()) * 10 + digit_value(text.last())
    }
}

/// The decimal digits of a natural number, without leading zeros.
pub open spec fn nat_text(n: nat) -> Seq<char>
    decreases n,
{
    if n < 10 {
        seq![digit_char(n as int)]
    } else {
        nat_text(n / 10).push(digit_char((n % 10) as int))
    }
}

/// The decimal form of an integer: a minus sign if it is negative, then the
/// digits of its magnitude.
pub open spec fn int_text(v: int) -> Seq<char> {
    if v < 0 {
        seq!['-'] + nat_text((-v) as nat)
    } else {
        nat_text(v as nat)
    }
}

/// The integer that `text` stands for, if it is one that fits in 32 bits: an
/// optional sign, then at least one decimal digit and nothing else.
pub open spec fn parse_int(text: Seq<char>) -> Option<int> {
    let signed = text.len() > 0 && (text[0] == '-' || text[0] == '+');
    let negative = text.len() > 0 && text[0] == '-';
    let body = if signed {
        text.drop_first()
    } else {
        text
    };
    let value = if negative {
        -digits_value(body)
    } else {
        digits_value(body)
    };
    if body.len() > 0 && all_digits(body) && i32::MIN <= value <= i32::MAX {
        Some(value)
    } else {
        None
    }
}

/// Whether `k` is the place of the first comma of `text`.
pub open spec fn is_first_comma(text: Seq<char>, k: int) -> bool {
    &&& 0 <= k < text.len()
    &&& text[k] == ','
    &&& forall|j: int| 0 <= j < k ==> text[j] != ','
}

/// A row of digits stands for no less than any of its beginnings.
proof fn lemma_digits_value_grows(text: Seq<char>, i: int)
    requires
        all_digits(text),
        0 <= i <= text.len(),
    ensures
        0 <= digits_value(text.take(i)) <= digits_value(text),
    decreases text.len(),
{
    if text.len() == 0 {
    } else if i == text.len() {
        assert(text.take(i) =~= text);
        lemma_digits_value_grows(text.drop_last(), i - 1);
    } else {
        assert(text.drop_last().take(i) =~= text.take(i));
        lemma_digits_value_grows(text.drop_last(), i);
    }
}

/// Reads the integer written in `text` from `from` up to `to`.
fn read_int(text: &Vec<char>, from: usize, to: usize) -> (r: Option<i32>)
    requires
        from <= to <= text@.len(),
    ensures
        match r {
            Some(v) => parse_int(text@.subrange(from as int, to as int)) == Some(v as int),
            None => parse_int(text@.subrange(from as int, to as int)).is_none(),
        },
{
    let ghost piece = text@.subrange(from as int, to as int);
    if from == to {
        return None;
    }
    let first = text[from];
    let negative = first == '-';
    let signed = first == '-' || first == '+';
    let start = if signed {
        from + 1
    } else {
        from
    };
    let ghost body = text@.subrange(start as int, to as int);
    if start == to {
        return None;
    }
    let mut value: i64 = 0;
    let mut i: usize = start;
    while i < to
        invariant
            from <= start <= i <= to <= text@.len(),
            start < to,
            piece == text@.subrange(from as int, to as int),
            body == text@.subrange(start as int, to as int),
            signed == (piece.len() > 0 && (piece[0] == '-' || piece[0] == '+')),
            body == (if signed {
                piece.drop_first()
            } else {
                piece
            }),
            forall|k: int| 0 <= k < i - start ==> is_digit(#[trigger] body[k]),
            value == digits_value(body.take(i - start)),
            0 <= value <= 0x8000_0000,
        decreases to - i,
    {
        let c = text[i];
        assert(body[i - start] == c);
        if !(c >= '0' && c <= '9') {
            return None;
        }
        let digit: i64 = (c as u32 - '0' as u32) as i64;
        proof {
            let more = body.take(i - start + 1);
            assert(more.drop_last() =~= body.take(i - start));
        }
        value = value * 10 + digit;
        if value > 0x8000_0000 {
            proof {
                if all_digits(body) {
                    lemma_digits_value_grows(body, i - start + 1);
                }
            }
            return None;
        }
        i += 1;
    }
    proof {
        assert(body.take(to - start) =~= body);
    }
    let result: i64 = if negative {
        -value
    } else {
        value
    };
    if result < -0x8000_0000 || result > 0x7fff_ffff {
        None
    } else {
        Some(result as i32)
    }
}

/// The text of one decimal digit.
fn digit_text(digit: u8) -> (r: &'static str)
    requires
        digit < 10,
    ensures
        r@ == seq![digit_char(digit as int)],
{
    proof {
        reveal_strlit("0");
        reveal_strlit("1");
        reveal_strlit("2");
        reveal_strlit("3");
        reveal_strlit("4");
        reveal_strlit("5");
        reveal_strlit("6");
        reveal_strlit("7");
        reveal_strlit("8");
        reveal_strlit("9");
    }
    let r = if digit == 0 {
        "0"
    } else if digit == 1 {
        "1"
    } else if digit == 2 {
        "2"
    } else if digit == 3 {
        "3"
    } else if digit == 4 {
        "4"
    } else if digit == 5 {
        "5"
    } else if digit == 6 {
        "6"
    } else if digit == 7 {
        "7"
    } else if digit == 8 {
        "8"
    } else {
        "9"
    };
    r
}

/// Appends the decimal digits of `n`.
fn write_nat(text: &mut String, n: u32)
    ensures
        final(text)@ == old(text)@ + nat_text(n as nat),
    decreases n,
{
    if n >= 10 {
        write_nat(text, n / 10);
    }
    text.append(digit_text((n % 10) as u8));
}

/// Appends the decimal form of `v`.
pub fn write_int(text: &mut String, v: i32)
    ensures
        final(text)@ == old(text)@ + int_text(v as int),
{
    if v < 0 {
        proof {
            reveal_strlit("-");
        }
        text.append("-");
        let magnitude: u32 = (-(v as i64)) as u32;
        write_nat(text, magnitude);
    } else {
        write_nat(text, v as u32);
    }
}

impl Coordinate {
    /// The text of a coordinate: `(x,y)`.
    pub open spec fn spec_text(self) -> Seq<char> {
        seq!['('] + int_text(self.x as int) + seq![','] + int_text(self.y as int) + seq![')']
    }

    /// The coordinate that `text` stands for, if it stands for one: an
    /// opening bracket, an integer, a comma, an integer and a closing
    /// bracket. The first comma parts the two integers.
    pub open spec fn spec_parse(text: Seq<char>) -> Option<Coordinate> {
        if text.len() >= 2 && text[0] == '(' && text[text.len() - 1] == ')' {
            let inner = text.subrange(1, text.len() - 1);
            if exists|k: int| is_first_comma(inner, k) {
                let k = choose|k: int| is_first_comma(inner, k);
                match (parse_int(inner.take(k)), parse_int(inner.skip(k + 1))) {
                    (Some(x), Some(y)) => Some(Coordinate { x: x as i32, y: y as i32 }),
                    _ => None,
                }
            } else {
                None
            }
        } else {
            None
        }
    }

    /// The text of the coordinate.
    pub fn to_text(&self) -> (r: String)
        ensures
            r@ == self.spec_text(),
    {
        proof {
            reveal_strlit("(");
            reveal_strlit(",");
            reveal_strlit(")");
        }
        let mut text = String::new();
        text.append("(");
        write_int(&mut text, self.x);
        text.append(",");
        write_int(&mut text, self.y);
        text.append(")");
        text
    }

    /// Reads a coordinate from its text.
    pub fn parse(text: &str) -> (r: Option<Coordinate>)
        ensures
            r == Coordinate::spec_parse(text@),
    {
        let chars = chars_of(text);
        let n = chars.len();
        if n < 2 || chars[0] != '(' || chars[n - 1] != ')' {
            return None;
        }
        let ghost inner = chars@.subrange(1, n - 1);
        let mut comma: usize = 1;
        while comma < n - 1 && chars[comma] != ','
            invariant
                1 <= comma <= n - 1,
                n == chars@.len(),
                inner == chars@.subrange(1, n - 1),
                forall|j: int| 0 <= j < comma - 1 ==> inner[j] != ',',
            decreases n - comma,
        {
            assert(inner[comma - 1] == chars@[comma as int]);
            comma += 1;
        }
        if comma == n - 1 {
            proof {
                if exists|k: int| is_first_comma(inner, k) {
                    let k = choose|k: int| is_first_comma(inner, k);
                    assert(inner[k] != ',');
                }
            }
            return None;
        }
        proof {
            let k = comma - 1;
            assert(inner[k] == chars@[comma as int]);
            assert(is_first_comma(inner, k));
            let chosen = choose|k: int| is_first_comma(inner, k);
            assert(chosen == k) by {
                if chosen < k {
                    assert(inner[chosen] != ',');
                }
                if k < chosen {
                    assert(inner[k] != ',');
                }
            }
            assert(inner.take(k) =~= chars@.subrange(1, comma as int));
            assert(inner.skip(k + 1) =~= chars@.subrange(comma + 1, n - 1));
        }
        let x = read_int(&chars, 1, comma);
        let y = read_int(&chars, comma + 1, n - 1);
        match (x, y) {
            (Some(x), Some(y)) => Some(Coordinate { x, y }),
            _ => None,
        }
    }
}

impl ClassField<i32> {
    /// The text of a tally: `(treasure,wumpus,pit)`.
    pub open spec fn spec_text(self) -> Seq<char> {
        seq!['('] + int_text(self.treasure as int) + seq![','] + int_text(self.wumpus as int)
            + seq![','] + int_text(self.pit as int) + seq![')']
    }

    /// The text of the tally.
    pub fn to_text(&self) -> (r: String)
        ensures
            r@ == self.spec_text(),
    {
        proof {
            reveal_strlit("(");
            reveal_strlit(",");
            reveal_strlit(")");
        }
        let mut text = String::new();
        text.append("(");
        write_int(&mut text, self.treasure);
        text.append(",");
        write_int(&mut text, self.wumpus);
        text.append(",");
        write_int(&mut text, self.pit);
        text.append(")");
        text
    }
}

/// The digits written for a natural number are digits, at least one, and
/// stand for that number.
pub proof fn lemma_nat_text(n: nat)
    ensures
        nat_text(n).len() > 0,
        all_digits(nat_text(n)),
        digits_value(nat_text(n)) == n,
    decreases n,
{
    if n < 10 {
        let text = nat_text(n);
        assert(digits_value(text.drop_last()) == 0);
    } else {
        lemma_nat_text(n / 10);
        let text = nat_text(n);
        let front = nat_text(n / 10);
        assert(text.drop_last() =~= front);
    }
}

/// The text written for an integer of 32 bits holds no comma and reads back
/// as that integer.
pub proof fn lemma_int_text(v: int)
    requires
        i32::MIN <= v <= i32::MAX,
    ensures
        parse_int(int_text(v)) == Some(v),
        forall|i: int| 0 <= i < int_text(v).len() ==> #[trigger] int_text(v)[i] != ',',
        int_text(v).len() > 0,
{
    let text = int_text(v);
    if v < 0 {
        let body = nat_text((-v) as nat);
        lemma_nat_text((-v) as nat);
        assert(text.drop_first() =~= body);
    } else {
        lemma_nat_text(v as nat);
    }
}

/// The text written for a coordinate reads back as that coordinate.
pub proof fn lemma_coordinate_round_trip(cell: Coordinate)
    ensures
        Coordinate::spec_parse(cell.spec_text()) == Some(cell),
{
    let x = int_text(cell.x as int);
    let y = int_text(cell.y as int);
    lemma_int_text(cell.x as int);
    lemma_int_text(cell.y as int);
    let text = cell.spec_text();
    let inner = text.subrange(1, text.len() - 1);
    let k = x.len() as int;
    assert(is_first_comma(inner, k));
    assert(inner.take(k) =~= x);
    assert(inner.skip(k + 1) =~= y);
}

impl std::str::FromStr for Direction {
    type Err = ();

    fn from_str(text: &str) -> (r: Result<Self, ()>)
        ensures
            r == (match Direction::spec_parse(text@) {
                Some(direction) => Ok::<Direction, ()>(direction),
                None => Err::<Direction, ()>(()),
            }),
    {
        match Direction::parse(text) {
            Some(direction) => Ok(direction),
            None => Err(()),
        }
    }
}

impl std::str::FromStr for Action {
    type Err = ();

    fn from_str(text: &str) -> (r: Result<Self, ()>)
        ensures
            r == (match Action::spec_parse(text@) {
                Some(action) => Ok::<Action, ()>(action),
                None => Err::<Action, ()>(()),
            }),
    {
        match Action::parse(text) {
            Some(action) => Ok(action),
            None => Err(()),
        }
    }
}

impl std::str::FromStr for Coordinate {
    type Err = ();

    fn from_str(text: &str) -> (r: Result<Self, ()>)
        ensures
            r == (match Coordinate::spec_parse(text@) {
                Some(cell) => Ok::<Coordinate, ()>(cell),
                None => Err::<Coordinate, ()>(()),
            }),
    {
        match Coordinate::parse(text) {
            Some(cell) => Ok(cell),
            None => Err(()),
        }
    }
}

impl std::str::FromStr for Events {
    type Err = ();

    fn from_str(text: &str) -> (r: Result<Self, ()>)
        ensures
            r == Ok::<Events, ()>(Events::spec_parse(text@)),
    {
        Ok(Events::parse(text))
    }
}

} // verus!
