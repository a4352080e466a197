//! Which matchers of a policy are supported: those that can be evaluated on every request.
use crate::text::characters;
use vstd::prelude::*;
use vstd::string::StringExecFns;

verus! {

/// How many levels a matcher may have.
pub const MAX_LEVELS: u64 = 32;

/// Whether `c` is a blank.
pub open spec fn is_blank(c: char) -> bool {
    c == ' ' || c == '\t'
}

/// Whether `c` is a letter, a digit or an underscore.
pub open spec fn is_word(c: char) -> bool {
    'a' <= c <= 'z' || 'A' <= c <= 'Z' || '0' <= c <= '9' || c == '_'
}

/// Whether `c` belongs to an operator with two operands.
pub open spec fn is_operator(c: char) -> bool {
    c == '&' || c == '|' || c == '=' || c == '<' || c == '>'
}

/// Whether an operand can follow on `c`.
pub open spec fn is_before_operand(c: char) -> bool {
    is_operator(c) || c == '(' || c == '[' || c == ','
}

/// Whether `c` can stand in an expression without arithmetic and without members of values.
pub open spec fn is_plain(c: char) -> bool {
    is_word(c) || is_blank(c) || is_before_operand(c) || c == ')' || c == ']' || c == '!' || c
        == '"'
}

/// Where the text is behind its first `i` characters: 0 outside strings, 1 in one, and 2 in one
/// behind an escape.
pub open spec fn mode(s: Seq<char>, i: int) -> int
    decreases i,
{
    if i <= 0 {
        0
    } else {
        let earlier = mode(s, i - 1);
        let c = s[i - 1];
        if earlier == 0 {
            if c == '"' {
                1
            } else {
                0
            }
        } else if earlier == 1 {
            if c == '"' {
                0
            } else if c == '\\' {
                2
            } else {
                1
            }
        } else {
            1
        }
    }
}

/// Where the last character before `i` stands that is no blank; -1 where there is none.
pub open spec fn before(s: Seq<char>, i: int) -> int
    decreases i,
{
    if i <= 0 {
        -1
    } else if is_blank(s[i - 1]) {
        before(s, i - 1)
    } else {
        i - 1
    }
}

/// Where the word begins that ends before `i`.
pub open spec fn word_start(s: Seq<char>, i: int) -> int
    decreases i,
{
    if i > 0 && is_word(s[i - 1]) {
        word_start(s, i - 1)
    } else {
        i
    }
}

/// The word that ends before `i`.
pub open spec fn word(s: Seq<char>, i: int) -> Seq<char> {
    s.subrange(word_start(s, i), i)
}

/// Whether an operand can follow on the character at `at`, or stand in front where that is -1.
pub open spec fn takes_operand(s: Seq<char>, at: int) -> bool {
    at < 0 || is_before_operand(s[at]) || word(s, at + 1) == "in"@
}

/// Whether the parenthesis at `i` opens a group, possibly one that is negated.
pub open spec fn is_group(s: Seq<char>, i: int) -> bool {
    let at = before(s, i);
    takes_operand(s, at) || s[at] == '!' && takes_operand(s, before(s, at))
}

/// Whether a function of this name fails on no argument: those that ask for the roles of a subject,
/// and the one that takes a part out of a path.
pub open spec fn is_safe_function(name: Seq<char>) -> bool {
    ||| name == "g"@
    ||| name.len() == 2 && name[0] == 'g' && '2' <= name[1] <= '9'
    ||| name == "keyGet2"@
}

/// Whether the parenthesis at `i` opens the arguments of a function that fails on none.
pub open spec fn is_safe_call(s: Seq<char>, i: int) -> bool {
    is_safe_function(word(s, before(s, i) + 1))
}

/// Whether what stands at `i` fails on no request: no arithmetic, no members of values, and no
/// function is called but those that fail on no argument. In a string anything can stand.
pub open spec fn is_harmless_at(s: Seq<char>, i: int) -> bool {
    mode(s, i) != 0 || {
        &&& is_plain(s[i])
        &&& s[i] == '(' ==> is_group(s, i) || is_safe_call(s, i)
        &&& s[i] == '[' ==> takes_operand(s, before(s, i))
        &&& s[i] == '<' || s[i] == '>' ==> i + 1 >= s.len() || s[i + 1] != s[i]
    }
}

/// Whether an expression follows on this word.
pub open spec fn is_nesting_word(word: Seq<char>) -> bool {
    ||| word == "in"@
    ||| word == "if"@
    ||| word == "switch"@
    ||| word == "while"@
    ||| word == "loop"@
    ||| word == "do"@
    ||| word == "for"@
}

/// Whether what stands at `i` puts an expression into another: a bracket, a negation, the beginning
/// of an operator, or the end of a word on which an expression follows.
pub open spec fn is_level_at(s: Seq<char>, i: int) -> bool {
    mode(s, i) == 0 && {
        ||| s[i] == '(' || s[i] == '[' || s[i] == '!'
        ||| is_operator(s[i]) && (i == 0 || !is_operator(s[i - 1]))
        ||| is_word(s[i]) && (i + 1 >= s.len() || !is_word(s[i + 1])) && is_nesting_word(
            word(s, i + 1),
        )
    }
}

/// How many times an expression is put into another in the first `i` characters. No expression
/// stands deeper than that.
pub open spec fn levels(s: Seq<char>, i: int) -> nat
    decreases i,
{
    if i <= 0 {
        0
    } else if is_level_at(s, i - 1) {
        levels(s, i - 1) + 1
    } else {
        levels(s, i - 1)
    }
}

/// Whether a matcher is supported: nothing in it fails on a request, and no expression in it stands
/// too deep.
pub open spec fn is_harmless(s: Seq<char>) -> bool {
    &&& forall|i: int| 0 <= i < s.len() ==> #[trigger] is_harmless_at(s, i)
    &&& levels(s, s.len() as int) <= MAX_LEVELS
}

/// Whether a policy effect is one of those that are known.
pub open spec fn is_known_effect(effect: Seq<char>) -> bool {
    ||| effect == "some(where (p_eft == allow))"@
    ||| effect == "!some(where (p_eft == deny))"@
    ||| effect == "some(where (p_eft == allow)) && !some(where (p_eft == deny))"@
    ||| effect == "priority(p_eft) || deny"@
}

fn blank(c: char) -> (yes: bool)
    ensures
        yes == is_blank(c),
{
    c == ' ' || c == '\t'
}

fn in_word(c: char) -> (yes: bool)
    ensures
        yes == is_word(c),
{
    ('a' <= c && c <= 'z') || ('A' <= c && c <= 'Z') || ('0' <= c && c <= '9') || c == '_'
}

fn operator(c: char) -> (yes: bool)
    ensures
        yes == is_operator(c),
{
    c == '&' || c == '|' || c == '=' || c == '<' || c == '>'
}

fn before_operand(c: char) -> (yes: bool)
    ensures
        yes == is_before_operand(c),
{
    operator(c) || c == '(' || c == '[' || c == ','
}

fn plain(c: char) -> (yes: bool)
    ensures
        yes == is_plain(c),
{
    in_word(c) || blank(c) || before_operand(c) || c == ')' || c == ']' || c == '!' || c == '"'
}

/// Where the last character before `i` stands that is no blank.
fn last_before(chars: &Vec<char>, i: usize) -> (at: Option<usize>)
    requires
        i <= chars@.len(),
    ensures
        match at {
            Some(at) => at < i && before(chars@, i as int) == at,
            None => before(chars@, i as int) == -1,
        },
{
    let mut at: usize = i;
    while at > 0 && blank(chars[at - 1])
        invariant
            at <= i <= chars@.len(),
            before(chars@, at as int) == before(chars@, i as int),
        decreases at,
    {
        at = at - 1;
    }
    if at == 0 {
        None
    } else {
        Some(at - 1)
    }
}

/// The word that ends before `i`.
fn word_before(chars: &Vec<char>, i: usize) -> (found: Vec<char>)
    requires
        i <= chars@.len(),
    ensures
        found@ == word(chars@, i as int),
{
    let mut start: usize = i;
    while start > 0 && in_word(chars[start - 1])
        invariant
            start <= i <= chars@.len(),
            word_start(chars@, start as int) == word_start(chars@, i as int),
        decreases start,
    {
        start = start - 1;
    }
    let mut found: Vec<char> = Vec::new();
    let mut k: usize = start;
    while k < i
        invariant
            start <= k <= i <= chars@.len(),
            found@ == chars@.subrange(start as int, k as int),
        decreases i - k,
    {
        found.push(chars[k]);
        k += 1;
        assert(found@ =~= chars@.subrange(start as int, k as int));
    }
    found
}

/// Whether a word is this one.
fn is_same(chars: &Vec<char>, name: &str) -> (yes: bool)
    ensures
        yes == (chars@ == name@),
{
    let other = characters(name);
    let n: usize = chars.len();
    if n != other.len() {
        return false;
    }
    let mut i: usize = 0;
    while i < n
        invariant
            i <= n == chars@.len(),
            n == other@.len(),
            other@ == name@,
            forall|j: int| 0 <= j < i ==> chars@[j] == other@[j],
        decreases n - i,
    {
        if chars[i] != other[i] {
            assert(chars@[i as int] != name@[i as int]);
            return false;
        }
        i += 1;
    }
    assert(chars@ =~= name@);
    true
}

fn operand_follows(chars: &Vec<char>, at: Option<usize>) -> (yes: bool)
    requires
        at matches Some(at) ==> at < chars@.len(),
    ensures
        yes == takes_operand(
            chars@,
            match at {
                Some(at) => at as int,
                None => -1,
            },
        ),
{
    let n: usize = chars.len();
    match at {
        Some(at) => before_operand(chars[at]) || is_same(&word_before(chars, at + 1), "in"),
        None => true,
    }
}

fn opens_group(chars: &Vec<char>, i: usize) -> (yes: bool)
    requires
        i < chars@.len(),
    ensures
        yes == is_group(chars@, i as int),
{
    let at = last_before(chars, i);
    if operand_follows(chars, at) {
        return true;
    }
    match at {
        Some(at) => chars[at] == '!' && operand_follows(chars, last_before(chars, at)),
        None => true,
    }
}

fn opens_safe_call(chars: &Vec<char>, i: usize) -> (yes: bool)
    requires
        i < chars@.len(),
    ensures
        yes == is_safe_call(chars@, i as int),
{
    let end: usize = match last_before(chars, i) {
        Some(at) => at + 1,
        None => 0,
    };
    let name = word_before(chars, end);
    is_same(&name, "g") || is_same(&name, "keyGet2") || (name.len() == 2 && name[0] == 'g' && '2'
        <= name[1] && name[1] <= '9')
}

fn nesting_word(word: &Vec<char>) -> (yes: bool)
    ensures
        yes == is_nesting_word(word@),
{
    is_same(word, "in") || is_same(word, "if") || is_same(word, "switch") || is_same(
        word,
        "while",
    ) || is_same(word, "loop") || is_same(word, "do") || is_same(word, "for")
}

fn harmless_at(chars: &Vec<char>, i: usize) -> (yes: bool)
    requires
        i < chars@.len(),
        mode(chars@, i as int) == 0,
    ensures
        yes == is_harmless_at(chars@, i as int),
{
    let n: usize = chars.len();
    let c: char = chars[i];
    if !plain(c) {
        return false;
    }
    if c == '(' {
        return opens_group(chars, i) || opens_safe_call(chars, i);
    }
    if c == '[' {
        return operand_follows(chars, last_before(chars, i));
    }
    (c != '<' && c != '>') || n - i < 2 || chars[i + 1] != c
}

fn level_at(chars: &Vec<char>, i: usize) -> (yes: bool)
    requires
        i < chars@.len(),
        mode(chars@, i as int) == 0,
    ensures
        yes == is_level_at(chars@, i as int),
{
    let n: usize = chars.len();
    let c: char = chars[i];
    if c == '(' || c == '[' || c == '!' {
        return true;
    }
    if operator(c) {
        return i == 0 || !operator(chars[i - 1]);
    }
    in_word(c) && (n - i < 2 || !in_word(chars[i + 1])) && nesting_word(
        &word_before(chars, i + 1),
    )
}

/// Whether a matcher is supported.
pub fn harmless(matcher: &String) -> (yes: bool)
    ensures
        yes == is_harmless(matcher@),
{
    let chars = characters(matcher.as_str());
    let n: usize = chars.len();
    let mut count: u64 = 0;
    let mut state: u8 = 0;
    let mut i: usize = 0;
    while i < n
        invariant
            i <= n == chars@.len(),
            chars@ == matcher@,
            state == mode(chars@, i as int),
            0 <= state <= 2,
            count == levels(chars@, i as int),
            count <= i,
            forall|j: int| 0 <= j < i ==> #[trigger] is_harmless_at(chars@, j),
        decreases n - i,
    {
        let c: char = chars[i];
        if state == 0 {
            if !harmless_at(&chars, i) {
                return false;
            }
            if level_at(&chars, i) {
                count = count + 1;
            }
        }
        assert(is_harmless_at(chars@, i as int));
        state = if state == 0 {
            if c == '"' {
                1
            } else {
                0
            }
        } else if state == 1 {
            if c == '"' {
                0
            } else if c == '\\' {
                2
            } else {
                1
            }
        } else {
            1
        };
        i += 1;
    }
    count <= MAX_LEVELS
}

/// Whether a policy effect is one of those that are known.
pub fn known_effect(effect: &String) -> (yes: bool)
    ensures
        yes == is_known_effect(effect@),
{
    *effect == String::from_str("some(where (p_eft == allow))") || *effect == String::from_str(
        "!some(where (p_eft == deny))",
    ) || *effect == String::from_str(
        "some(where (p_eft == allow)) && !some(where (p_eft == deny))",
    ) || *effect == String::from_str("priority(p_eft) || deny")
}

/// A text without quotes is nowhere in a string.
proof fn nothing_is_quoted(s: Seq<char>, i: int)
    requires
        0 <= i <= s.len(),
        forall|j: int| 0 <= j < s.len() ==> #[trigger] s[j] != '"',
    ensures
        mode(s, i) == 0,
    decreases i,
{
    if i > 0 {
        nothing_is_quoted(s, i - 1);
    }
}

/// A matcher without strings that is supported has nothing in it but letters, digits, underscores,
/// blanks, comparisons, negations, `&`, `|`, commas and brackets: no arithmetic and no members.
pub proof fn supported_matcher_is_plain(s: Seq<char>, i: int)
    requires
        is_harmless(s),
        forall|j: int| 0 <= j < s.len() ==> #[trigger] s[j] != '"',
        0 <= i < s.len(),
    ensures
        ({
            let c = s[i];
            ||| 'a' <= c <= 'z'
            ||| 'A' <= c <= 'Z'
            ||| '0' <= c <= '9'
            ||| c == '_' || c == ' ' || c == '\t' || c == '&' || c == '|' || c == '='
            ||| c == '<' || c == '>' || c == '!' || c == ','
            ||| c == '(' || c == ')' || c == '[' || c == ']'
        }),
        (s[i] == '<' || s[i] == '>') && i + 1 < s.len() ==> s[i + 1] != s[i],
{
    nothing_is_quoted(s, i);
    assert(is_harmless_at(s, i));
}

/// Blanks are passed over, back to what stands before them.
proof fn before_is(s: Seq<char>, i: int, k: int)
    requires
        0 < k <= i <= s.len(),
        forall|j: int| k <= j < i ==> is_blank(#[trigger] s[j]),
        !is_blank(s[k - 1]),
    ensures
        before(s, i) == k - 1,
    decreases i,
{
    if i > k {
        assert(is_blank(s[i - 1]));
        before_is(s, i - 1, k);
    }
}

/// A word begins behind the last character before it that is not of a word.
proof fn word_start_is(s: Seq<char>, j: int, k: int)
    requires
        0 <= j <= k <= s.len(),
        forall|m: int| j <= m < k ==> is_word(#[trigger] s[m]),
        j > 0 ==> !is_word(s[j - 1]),
    ensures
        word_start(s, k) == j,
    decreases k,
{
    if k > j {
        assert(is_word(s[k - 1]));
        word_start_is(s, j, k - 1);
    }
}

/// In a supported matcher without strings every word that a parenthesis follows, with or without
/// blanks between, is `g`, `g2` to `g9`, `keyGet2` or `in`. So no other function is called.
pub proof fn only_safe_functions_are_called(s: Seq<char>, j: int, k: int, i: int)
    requires
        is_harmless(s),
        forall|m: int| 0 <= m < s.len() ==> #[trigger] s[m] != '"',
        0 <= j < k <= i < s.len(),
        s[i] == '(',
        forall|m: int| k <= m < i ==> (#[trigger] s[m] == ' ' || s[m] == '\t'),
        forall|m: int|
            j <= m < k ==> ('a' <= #[trigger] s[m] <= 'z' || 'A' <= s[m] <= 'Z' || '0' <= s[m]
                <= '9' || s[m] == '_'),
        j > 0 ==> !('a' <= s[j - 1] <= 'z' || 'A' <= s[j - 1] <= 'Z' || '0' <= s[j - 1] <= '9'
            || s[j - 1] == '_'),
    ensures
        ({
            let name = s.subrange(j, k);
            ||| name == "g"@
            ||| name.len() == 2 && name[0] == 'g' && '2' <= name[1] <= '9'
            ||| name == "keyGet2"@
            ||| name == "in"@
        }),
{
    nothing_is_quoted(s, i);
    assert(is_harmless_at(s, i));
    assert(is_word(s[k - 1]));
    before_is(s, i, k);
    word_start_is(s, j, k);
}

/// A text of words, blanks, commas, `&`, `|`, `=`, `!` and closing brackets is supported, however
/// long it is, where no more than 32 expressions are put into others in it.
pub proof fn comparisons_are_supported(s: Seq<char>)
    requires
        levels(s, s.len() as int) <= 32,
        forall|i: int|
            0 <= i < s.len() ==> ('a' <= #[trigger] s[i] <= 'z' || 'A' <= s[i] <= 'Z' || '0'
                <= s[i] <= '9' || s[i] == '_' || s[i] == ' ' || s[i] == '\t' || s[i] == ','
                || s[i] == '&' || s[i] == '|' || s[i] == '=' || s[i] == '!' || s[i] == ')' || s[i]
                == ']'),
    ensures
        is_harmless(s),
{
    assert forall|i: int| 0 <= i < s.len() implies #[trigger] is_harmless_at(s, i) by {
        assert('a' <= s[i] <= 'z' || s[i] != '"');
    }
}

/// More text puts no fewer expressions into others, and every opening bracket and every negation
/// outside strings puts one more.
pub proof fn brackets_are_levels(s: Seq<char>, i: int)
    requires
        0 <= i < s.len(),
        forall|j: int| 0 <= j < s.len() ==> #[trigger] s[j] != '"',
    ensures
        levels(s, i) <= levels(s, i + 1) <= levels(s, i) + 1,
        s[i] == '(' || s[i] == '[' || s[i] == '!' ==> levels(s, i + 1) == levels(s, i) + 1,
        (s[i] == '&' || s[i] == '|' || s[i] == '=' || s[i] == '<' || s[i] == '>') && (i == 0
            || !is_operator(s[i - 1])) ==> levels(s, i + 1) == levels(s, i) + 1,
        i > 0 && is_operator(s[i]) && is_operator(s[i - 1]) ==> levels(s, i + 1) == levels(s, i),
        s[i] == ' ' || s[i] == '\t' || s[i] == ',' || s[i] == ')' || s[i] == ']' ==> levels(
            s,
            i + 1,
        ) == levels(s, i),
        levels(s, 0) == 0,
{
    nothing_is_quoted(s, i);
}

/// A matcher with more than 32 expressions put into others is not supported.
pub proof fn supported_matcher_is_not_deep(s: Seq<char>)
    requires
        is_harmless(s),
    ensures
        levels(s, s.len() as int) <= 32,
{
}

/// Whether an operand is due at `i`: before it, up to blanks from `k` on, stands an operator, an
/// opening bracket, a comma or nothing.
pub open spec fn is_due(s: Seq<char>, k: int, i: int) -> bool {
    &&& 0 <= k <= i < s.len()
    &&& forall|m: int| k <= m < i ==> (#[trigger] s[m] == ' ' || s[m] == '\t')
    &&& k == 0 || s[k - 1] == '&' || s[k - 1] == '|' || s[k - 1] == '=' || s[k - 1] == '<' || s[k
        - 1] == '>' || s[k - 1] == '(' || s[k - 1] == '[' || s[k - 1] == ','
}

/// Nothing is before blanks at the beginning.
proof fn before_is_none(s: Seq<char>, i: int)
    requires
        0 <= i <= s.len(),
        forall|m: int| 0 <= m < i ==> is_blank(#[trigger] s[m]),
    ensures
        before(s, i) == -1,
    decreases i,
{
    if i > 0 {
        assert(is_blank(s[i - 1]));
        before_is_none(s, i - 1);
    }
}

/// Where an operand is due, one can stand.
proof fn due_operand_is_taken(s: Seq<char>, k: int, i: int)
    requires
        is_due(s, k, i),
    ensures
        takes_operand(s, before(s, i)),
{
    if k == 0 {
        before_is_none(s, i);
    } else {
        before_is(s, i, k);
    }
}

/// Outside strings a parenthesis or a bracket is supported where an operand is due, and a
/// parenthesis behind a negation that stands there too.
pub proof fn groups_are_supported(s: Seq<char>, k: int, i: int)
    requires
        mode(s, i) == 0,
        0 <= i < s.len(),
        is_due(s, k, i) && (s[i] == '(' || s[i] == '[') || s[i] == '(' && 0 < k <= i && s[k - 1]
            == '!' && (forall|m: int| k <= m < i ==> (#[trigger] s[m] == ' ' || s[m] == '\t'))
            && exists|j: int| #[trigger] is_due(s, j, k - 1),
    ensures
        is_harmless_at(s, i),
{
    if is_due(s, k, i) && (s[i] == '(' || s[i] == '[') {
        due_operand_is_taken(s, k, i);
    } else {
        let j = choose|j: int| #[trigger] is_due(s, j, k - 1);
        before_is(s, i, k);
        due_operand_is_taken(s, j, k - 1);
    }
}

/// Outside strings a call of `g`, of `g2` to `g9` or of `keyGet2` is supported, and so are
/// parentheses and brackets behind `in`; blanks can stand between.
pub proof fn safe_calls_are_supported(s: Seq<char>, j: int, k: int, i: int)
    requires
        mode(s, i) == 0,
        0 <= j < k <= i < s.len(),
        s[i] == '(' || s[i] == '[' && s.subrange(j, k) == "in"@,
        forall|m: int| k <= m < i ==> (#[trigger] s[m] == ' ' || s[m] == '\t'),
        forall|m: int|
            j <= m < k ==> ('a' <= #[trigger] s[m] <= 'z' || 'A' <= s[m] <= 'Z' || '0' <= s[m]
                <= '9' || s[m] == '_'),
        j > 0 ==> !('a' <= s[j - 1] <= 'z' || 'A' <= s[j - 1] <= 'Z' || '0' <= s[j - 1] <= '9'
            || s[j - 1] == '_'),
        ({
            let name = s.subrange(j, k);
            ||| name == "g"@
            ||| name.len() == 2 && name[0] == 'g' && '2' <= name[1] <= '9'
            ||| name == "keyGet2"@
            ||| name == "in"@
        }),
    ensures
        is_harmless_at(s, i),
{
    assert(is_word(s[k - 1]));
    before_is(s, i, k);
    word_start_is(s, j, k);
}

/// A string reaches from a quote to the next one, but for a quote behind a backslash; whatever
/// stands in it is supported and puts no expression into another.
pub proof fn strings_hold_anything(s: Seq<char>, i: int, k: int, j: int)
    requires
        0 <= i < j <= k < s.len(),
        mode(s, i) == 0,
        s[i] == '"',
        forall|m: int| i < m < k ==> (#[trigger] s[m] != '"' && s[m] != '\\'),
    ensures
        is_harmless_at(s, j),
        mode(s, j) == 1,
        levels(s, j) == levels(s, i),
        s[k] == '"' ==> mode(s, k + 1) == 0 && levels(s, k + 1) == levels(s, i),
        s[k] == '\\' && k + 1 < s.len() ==> mode(s, k + 2) == 1,
{
    strings_go_on(s, i, j);
    strings_go_on(s, i, k);
    if s[k] == '\\' && k + 1 < s.len() {
        assert(mode(s, k + 1) == 2);
    }
}

/// Up to the next quote or backslash a string goes on.
proof fn strings_go_on(s: Seq<char>, i: int, j: int)
    requires
        0 <= i < j <= s.len(),
        mode(s, i) == 0,
        s[i] == '"',
        forall|m: int| i < m < j ==> (#[trigger] s[m] != '"' && s[m] != '\\'),
    ensures
        mode(s, j) == 1,
        levels(s, j) == levels(s, i),
    decreases j,
{
    if j > i + 1 {
        strings_go_on(s, i, j - 1);
        assert(s[j - 1] != '"' && s[j - 1] != '\\');
    }
}

/// A word outside strings puts an expression into another where it is one of seven, and else
/// nothing.
pub proof fn words_are_levels(s: Seq<char>, j: int, k: int)
    requires
        0 <= j < k <= s.len(),
        forall|m: int| 0 <= m < s.len() ==> #[trigger] s[m] != '"',
        forall|m: int|
            j <= m < k ==> ('a' <= #[trigger] s[m] <= 'z' || 'A' <= s[m] <= 'Z' || '0' <= s[m]
                <= '9' || s[m] == '_'),
        j > 0 ==> !('a' <= s[j - 1] <= 'z' || 'A' <= s[j - 1] <= 'Z' || '0' <= s[j - 1] <= '9'
            || s[j - 1] == '_'),
        k < s.len() ==> !('a' <= s[k] <= 'z' || 'A' <= s[k] <= 'Z' || '0' <= s[k] <= '9' || s[k]
            == '_'),
    ensures
        levels(s, k) == levels(s, j) + if s.subrange(j, k) == "in"@ || s.subrange(j, k) == "if"@
            || s.subrange(j, k) == "switch"@ || s.subrange(j, k) == "while"@ || s.subrange(j, k)
            == "loop"@ || s.subrange(j, k) == "do"@ || s.subrange(j, k) == "for"@ {
            1nat
        } else {
            0nat
        },
{
    word_start_is(s, j, k);
    words_begin(s, j, k - 1);
    nothing_is_quoted(s, k - 1);
    assert(is_word(s[k - 1]));
}

/// Before its end a word puts nothing into another.
proof fn words_begin(s: Seq<char>, j: int, i: int)
    requires
        0 <= j <= i < s.len(),
        forall|m: int| 0 <= m < s.len() ==> #[trigger] s[m] != '"',
        forall|m: int| j <= m <= i ==> is_word(#[trigger] s[m]),
    ensures
        levels(s, i) == levels(s, j),
    decreases i,
{
    if i > j {
        words_begin(s, j, i - 1);
        assert(is_word(s[i]) && is_word(s[i - 1]));
    }
}

} // verus!
