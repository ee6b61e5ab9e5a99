//! The typed command language: parsing a line into a [`Command`] and
//! suggesting completions for a partly typed line.

use vstd::prelude::*;
use vstd::string::*;
use crate::text::{
    chars_of, find_char, first_index, last_index, rfind_char, spells, string_of_range, trim_bounds,
    trimmed, occurs, occurs_in, skip_chars, starts_with,
};

verus! {

/// A command typed on the `:` line.
#[derive(Debug, PartialEq)]
pub enum Command {
    Play(String),
    Volume(Option<String>, u8),
    GroupAll,
    Ungroup,
    Next,
    Prev,
    Sleep(u32),
    SleepCancel,
    Reload,
    Unknown(String),
}

/// A command as a mathematical value.
pub enum CommandSpec {
    Play(Seq<char>),
    Volume(Option<Seq<char>>, u8),
    GroupAll,
    Ungroup,
    Next,
    Prev,
    Sleep(u32),
    SleepCancel,
    Reload,
    Unknown(Seq<char>),
}

impl View for Command {
    type V = CommandSpec;

    open spec fn view(&self) -> CommandSpec {
        match self {
            Command::Play(s) => CommandSpec::Play(s@),
            Command::Volume(t, v) => CommandSpec::Volume(
                match t {
                    Some(s) => Some(s@),
                    None => None,
                },
                *v,
            ),
            Command::GroupAll => CommandSpec::GroupAll,
            Command::Ungroup => CommandSpec::Ungroup,
            Command::Next => CommandSpec::Next,
            Command::Prev => CommandSpec::Prev,
            Command::Sleep(m) => CommandSpec::Sleep(*m),
            Command::SleepCancel => CommandSpec::SleepCancel,
            Command::Reload => CommandSpec::Reload,
            Command::Unknown(s) => CommandSpec::Unknown(s@),
        }
    }
}

pub open spec fn is_digit(c: char) -> bool {
    '0' <= c && c <= '9'
}

/// The number that a run of decimal digits spells.
pub open spec fn digits_value(s: Seq<char>) -> nat
    decreases s.len(),
{
    if s.len() == 0 {
        0
    } else {
        digits_value(s.drop_last()) * 10 + ((s.last() as u32) - ('0' as u32)) as nat
    }
}

/// `s` without a leading `+`.
pub open spec fn unsigned_digits(s: Seq<char>) -> Seq<char> {
    if s.len() > 0 && s[0] == '+' {
        s.drop_first()
    } else {
        s
    }
}

/// `s` is an optional `+` and then one or more decimal digits.
pub open spec fn is_number_text(s: Seq<char>) -> bool {
    let d = unsigned_digits(s);
    d.len() > 0 && (forall|i: int| 0 <= i < d.len() ==> is_digit(#[trigger] d[i]))
}

/// The number that `s` spells, held at `cap`, when `s` is a number at all.
pub open spec fn capped_value(s: Seq<char>, cap: nat) -> Option<nat> {
    if is_number_text(s) {
        let v = digits_value(unsigned_digits(s));
        Some(if v > cap { cap } else { v })
    } else {
        None
    }
}

/// What an unsigned integer's `from_str` reads from `s`, when the value is at
/// most `max`: an optional `+` and then one or more decimal digits.
pub open spec fn number_value(s: Seq<char>, max: nat) -> Option<nat> {
    let d = unsigned_digits(s);
    if is_number_text(s) && digits_value(d) <= max {
        Some(digits_value(d))
    } else {
        None
    }
}

/// The verb of a trimmed line and what follows its first space, trimmed.
pub open spec fn split_verb(t: Seq<char>) -> (Seq<char>, Seq<char>) {
    match first_index(t, ' ') {
        Some(k) => (t.take(k), trimmed(t.skip(k + 1))),
        None => (t, Seq::empty()),
    }
}

/// Arguments of `vol`: an optional target before the last space, then the level.
pub open spec fn volume_spec(rest: Seq<char>) -> Option<CommandSpec> {
    match last_index(rest, ' ') {
        Some(k) => match number_value(rest.skip(k + 1), 255) {
            Some(v) => Some(CommandSpec::Volume(Some(trimmed(rest.take(k))), v as u8)),
            None => None,
        },
        None => match number_value(rest, 255) {
            Some(v) => Some(CommandSpec::Volume(None, v as u8)),
            None => None,
        },
    }
}

/// What a typed line means.
pub open spec fn parse_spec(input: Seq<char>) -> Option<CommandSpec> {
    let t = trimmed(input);
    let verb = split_verb(t).0;
    let rest = split_verb(t).1;
    if t.len() == 0 {
        None
    } else if verb == "play"@ || verb == "p"@ {
        Some(CommandSpec::Play(rest))
    } else if verb == "vol"@ || verb == "volume"@ {
        volume_spec(rest)
    } else if verb == "group"@ {
        if rest == "all"@ {
            Some(CommandSpec::GroupAll)
        } else {
            Some(CommandSpec::Unknown(t))
        }
    } else if verb == "ungroup"@ {
        Some(CommandSpec::Ungroup)
    } else if verb == "next"@ || verb == "n"@ {
        Some(CommandSpec::Next)
    } else if verb == "prev"@ || verb == "previous"@ {
        Some(CommandSpec::Prev)
    } else if verb == "sleep"@ {
        if rest == "0"@ || rest == "cancel"@ {
            Some(CommandSpec::SleepCancel)
        } else {
            match number_value(rest, u32::MAX as nat) {
                Some(m) => Some(CommandSpec::Sleep(m as u32)),
                None => None,
            }
        }
    } else if verb == "reload"@ {
        Some(CommandSpec::Reload)
    } else {
        Some(CommandSpec::Unknown(t))
    }
}

pub open spec fn command_opt_view(c: Option<Command>) -> Option<CommandSpec> {
    match c {
        Some(x) => Some(x@),
        None => None,
    }
}

proof fn lemma_digits_prefix_le(s: Seq<char>, i: int)
    requires
        0 <= i <= s.len(),
    ensures
        digits_value(s.take(i)) <= digits_value(s),
    decreases s.len() - i,
{
    if i < s.len() {
        lemma_digits_prefix_le(s, i + 1);
        assert(s.take(i + 1).drop_last() =~= s.take(i));
        let a = digits_value(s.take(i));
        let b = digits_value(s.take(i + 1));
        assert(b == a * 10 + ((s.take(i + 1).last() as u32) - ('0' as u32)) as nat);
        assert(a <= b) by (nonlinear_arith)
            requires
                b == a * 10 + ((s.take(i + 1).last() as u32) - ('0' as u32)) as nat,
        ;
    } else {
        assert(s.take(i) =~= s);
    }
}

/// Reads `v[from..to]` as an unsigned number no larger than `max`.
pub fn read_number(v: &[char], from: usize, to: usize, max: u64) -> (r: Option<u64>)
    requires
        from <= to <= v@.len(),
        max <= u32::MAX,
    ensures
        match number_value(v@.subrange(from as int, to as int), max as nat) {
            Some(n) => r == Some(n as u64),
            None => r is None,
        },
{
    let ghost s = v@.subrange(from as int, to as int);
    let mut start = from;
    if from < to && v[from] == '+' {
        start = from + 1;
    }
    let ghost d = v@.subrange(start as int, to as int);
    assert(d =~= unsigned_digits(s));
    if start == to {
        return None;
    }
    let mut acc: u64 = 0;
    let mut i: usize = start;
    while i < to
        invariant
            from <= start <= i <= to <= v@.len(),
            d == v@.subrange(start as int, to as int),
            s == v@.subrange(from as int, to as int),
            d == unsigned_digits(s),
            max <= u32::MAX,
            acc <= max,
            acc == digits_value(d.take(i - start)),
            forall|j: int| 0 <= j < i - start ==> is_digit(#[trigger] d[j]),
        decreases to - i,
    {
        let c = v[i];
        assert(c == d[i - start]);
        if !('0' <= c && c <= '9') {
            assert(!is_digit(d[i - start]));
            assert(number_value(s, max as nat) is None);
            return None;
        }
        let digit = (c as u32 - '0' as u32) as u64;
        assert(d.take(i - start + 1).drop_last() =~= d.take(i - start));
        assert(d.take(i - start + 1).last() == c);
        assert(digits_value(d.take(i - start + 1)) == digits_value(d.take(i - start)) * 10
            + digit);
        acc = acc * 10 + digit;
        i += 1;
        if acc > max {
            proof {
                lemma_digits_prefix_le(d, i - start);
            }
            assert(number_value(s, max as nat) is None);
            return None;
        }
    }
    assert(d.take(i - start) =~= d);
    Some(acc)
}

/// Reads `v[from..to]` as an unsigned number of any size, held at `cap`.
pub fn read_capped(v: &[char], from: usize, to: usize, cap: u64) -> (r: Option<u64>)
    requires
        from <= to <= v@.len(),
        cap < u32::MAX,
    ensures
        match capped_value(v@.subrange(from as int, to as int), cap as nat) {
            Some(n) => r == Some(n as u64),
            None => r is None,
        },
{
    let ghost s = v@.subrange(from as int, to as int);
    let mut start = from;
    if from < to && v[from] == '+' {
        start = from + 1;
    }
    let ghost d = v@.subrange(start as int, to as int);
    assert(d =~= unsigned_digits(s));
    if start == to {
        return None;
    }
    let over = cap + 1;
    let mut acc: u64 = 0;
    let mut i: usize = start;
    while i < to
        invariant
            from <= start <= i <= to <= v@.len(),
            d == v@.subrange(start as int, to as int),
            s == v@.subrange(from as int, to as int),
            d == unsigned_digits(s),
            cap < u32::MAX,
            over == cap + 1,
            acc == if digits_value(d.take(i - start)) > cap { over as nat } else { digits_value(d.take(i - start)) },
            forall|j: int| 0 <= j < i - start ==> is_digit(#[trigger] d[j]),
        decreases to - i,
    {
        let c = v[i];
        assert(c == d[i - start]);
        if !('0' <= c && c <= '9') {
            assert(!is_digit(d[i - start]));
            return None;
        }
        let digit = (c as u32 - '0' as u32) as u64;
        assert(d.take(i - start + 1).drop_last() =~= d.take(i - start));
        assert(d.take(i - start + 1).last() == c);
        let ghost prev = digits_value(d.take(i - start));
        assert(digits_value(d.take(i - start + 1)) == prev * 10 + digit);
        let next = acc * 10 + digit;
        acc = if next > cap {
            over
        } else {
            next
        };
        proof {
            if prev > cap {
                assert(prev * 10 + digit > cap) by (nonlinear_arith)
                    requires prev > cap, digit >= 0;
            }
        }
        i += 1;
    }
    assert(d.take(i - start) =~= d);
    Some(if acc > cap { cap } else { acc })
}

/// Reads a line typed on the `:` line as a command. An empty line, `vol` without
/// a readable level and `sleep` without a readable count give `None`.
pub fn parse(input: &str) -> (r: Option<Command>)
    ensures
        command_opt_view(r) == parse_spec(input@),
{
    let all = chars_of(input);
    let (s, e) = trim_bounds(all.as_slice());
    let t = string_of_range(all.as_slice(), s, e);
    let tv = chars_of(t.as_str());
    if tv.len() == 0 {
        return None;
    }
    let n = tv.len();
    let (verb_end, rest_from, rest_to) = match find_char(tv.as_slice(), ' ') {
        Some(k) => {
            let tail = string_of_range(tv.as_slice(), k + 1, n);
            let tail_chars = chars_of(tail.as_str());
            let (a, b) = trim_bounds(tail_chars.as_slice());
            assert(tail_chars@ == tv@.skip(k + 1));
            (k, k + 1 + a, k + 1 + b)
        },
        None => (n, n, n),
    };
    proof {
        match first_index(tv@, ' ') {
            Some(k) => {
                assert(tv@.take(k) =~= tv@.subrange(0, verb_end as int));
                assert(trimmed(tv@.skip(k + 1)) =~= tv@.subrange(rest_from as int, rest_to as int));
            },
            None => {
                assert(tv@ =~= tv@.subrange(0, verb_end as int));
                assert(tv@.subrange(rest_from as int, rest_to as int) =~= Seq::<char>::empty());
            },
        }
    }
    let tvs = tv.as_slice();
    let verb_is = |lit: &str| -> (b: bool)
        ensures
            b == (tv@.subrange(0, verb_end as int) == lit@),
        { spells(tvs, 0, verb_end, lit) };
    if verb_is("play") || verb_is("p") {
        Some(Command::Play(string_of_range(tvs, rest_from, rest_to)))
    } else if verb_is("vol") || verb_is("volume") {
        parse_volume(tvs, rest_from, rest_to)
    } else if verb_is("group") {
        if spells(tvs, rest_from, rest_to, "all") {
            Some(Command::GroupAll)
        } else {
            Some(Command::Unknown(t))
        }
    } else if verb_is("ungroup") {
        Some(Command::Ungroup)
    } else if verb_is("next") || verb_is("n") {
        Some(Command::Next)
    } else if verb_is("prev") || verb_is("previous") {
        Some(Command::Prev)
    } else if verb_is("sleep") {
        if spells(tvs, rest_from, rest_to, "0") || spells(tvs, rest_from, rest_to, "cancel") {
            Some(Command::SleepCancel)
        } else {
            match read_number(tvs, rest_from, rest_to, 0xFFFF_FFFF) {
                Some(m) => Some(Command::Sleep(m as u32)),
                None => None,
            }
        }
    } else if verb_is("reload") {
        Some(Command::Reload)
    } else {
        Some(Command::Unknown(t))
    }
}

/// The arguments of `vol`, held in `v[from..to]`.
fn parse_volume(v: &[char], from: usize, to: usize) -> (r: Option<Command>)
    requires
        from <= to <= v@.len(),
    ensures
        command_opt_view(r) == volume_spec(v@.subrange(from as int, to as int)),
{
    let ghost rest = v@.subrange(from as int, to as int);
    let rest_str = string_of_range(v, from, to);
    let rv = chars_of(rest_str.as_str());
    let n = rv.len();
    match rfind_char(rv.as_slice(), ' ') {
        Some(k) => match read_number(rv.as_slice(), k + 1, n, 255) {
            Some(level) => {
                let head = string_of_range(rv.as_slice(), 0, k);
                let hv = chars_of(head.as_str());
                let (ha, hb) = trim_bounds(hv.as_slice());
                let target = string_of_range(hv.as_slice(), ha, hb);
                assert(rv@.subrange(k + 1, n as int) =~= rest.skip(k + 1));
                Some(Command::Volume(Some(target), level as u8))
            },
            None => {
                assert(rv@.subrange(k + 1, n as int) =~= rest.skip(k + 1));
                None
            },
        },
        None => {
            assert(rv@.subrange(0, n as int) =~= rest);
            match read_number(rv.as_slice(), 0, n, 255) {
                Some(level) => Some(Command::Volume(None, level as u8)),
                None => None,
            }
        },
    }
}

/// Names the result of `str::to_lowercase`: the lower-case form of a string,
/// which depends on its characters alone.
pub uninterp spec fn lower_of(s: Seq<char>) -> Seq<char>;

/// Relies on `str::to_lowercase`: the lower-case form of `s`.
#[verifier::external_body]
pub(crate) fn lowercase(s: &str) -> (r: String)
    ensures
        r@ == lower_of(s@),
{
    s.to_lowercase()
}

/// A completion of a partly typed line.
#[derive(Debug, PartialEq)]
pub enum Completion {
    /// Text to append to what was typed.
    Suffix(String),
    /// A playlist name that replaces the query typed after the verb.
    Replacement(String),
}

pub enum CompletionSpec {
    Suffix(Seq<char>),
    Replacement(Seq<char>),
}

impl View for Completion {
    type V = CompletionSpec;

    open spec fn view(&self) -> CompletionSpec {
        match self {
            Completion::Suffix(s) => CompletionSpec::Suffix(s@),
            Completion::Replacement(s) => CompletionSpec::Replacement(s@),
        }
    }
}

pub open spec fn completion_opt_view(c: Option<Completion>) -> Option<CompletionSpec> {
    match c {
        Some(x) => Some(x@),
        None => None,
    }
}

/// The characters of each string.
pub open spec fn text_views(s: Seq<String>) -> Seq<Seq<char>> {
    s.map_values(|t: String| t@)
}

/// The verbs offered when no space has been typed yet, in the order tried.
pub open spec fn verbs() -> Seq<Seq<char>> {
    seq![
        "play"@,
        "vol"@,
        "group all"@,
        "ungroup"@,
        "next"@,
        "prev"@,
        "sleep"@,
        "reload"@,
    ]
}

/// The rest of the first verb of `vs` that `input` begins without spelling it whole.
pub open spec fn verb_completion(input: Seq<char>, vs: Seq<Seq<char>>) -> Option<Seq<char>>
    decreases vs.len(),
{
    if vs.len() == 0 {
        None
    } else if input.is_prefix_of(vs[0]) && vs[0] != input {
        Some(vs[0].skip(input.len() as int))
    } else {
        verb_completion(input, vs.drop_first())
    }
}

/// Index of the first of `folded` that begins with `q`.
pub open spec fn first_prefixed(q: Seq<char>, folded: Seq<Seq<char>>) -> Option<int>
    decreases folded.len(),
{
    if folded.len() == 0 {
        None
    } else if q.is_prefix_of(folded[0]) {
        Some(0)
    } else {
        match first_prefixed(q, folded.drop_first()) {
            Some(i) => Some(i + 1),
            None => None,
        }
    }
}

/// Index of the first of `folded` that holds `q`.
pub open spec fn first_containing(q: Seq<char>, folded: Seq<Seq<char>>) -> Option<int>
    decreases folded.len(),
{
    if folded.len() == 0 {
        None
    } else if occurs_in(q, folded[0]) {
        Some(0)
    } else {
        match first_containing(q, folded.drop_first()) {
            Some(i) => Some(i + 1),
            None => None,
        }
    }
}

/// Completion of a folded playlist query `q` against `names`, whose folded
/// forms are `folded`: the rest of the first name whose folded form begins
/// with `q`, unless that form is all of it; else the first name whose folded
/// form holds `q`, to replace the query.
pub open spec fn completion_among(q: Seq<char>, names: Seq<Seq<char>>, folded: Seq<Seq<char>>) -> Option<CompletionSpec> {
    let by_prefix = match first_prefixed(q, folded) {
        Some(i) => if folded[i] != q {
            Some(CompletionSpec::Suffix(skip_chars(names[i], q.len())))
        } else {
            None
        },
        None => None,
    };
    if by_prefix is Some {
        by_prefix
    } else {
        match first_containing(q, folded) {
            Some(j) => Some(CompletionSpec::Replacement(names[j])),
            None => None,
        }
    }
}

/// The lower-case form of each name.
pub open spec fn folded_names(names: Seq<Seq<char>>) -> Seq<Seq<char>> {
    names.map_values(|n: Seq<char>| lower_of(n))
}

/// Completion of a playlist query `q` (already lower case) against `names`,
/// ignoring their case.
pub open spec fn query_completion(q: Seq<char>, names: Seq<Seq<char>>) -> Option<CompletionSpec> {
    completion_among(q, names, folded_names(names))
}

/// The completion offered for a partly typed line.
pub open spec fn suggest_spec(input: Seq<char>, names: Seq<Seq<char>>) -> Option<CompletionSpec> {
    if input.len() == 0 {
        None
    } else {
        match first_index(input, ' ') {
            None => match verb_completion(input, verbs()) {
                Some(rest) => Some(CompletionSpec::Suffix(rest)),
                None => None,
            },
            Some(k) => {
                let verb = input.take(k);
                let query = input.skip(k + 1);
                if (verb == "play"@ || verb == "p"@) && query.len() > 0 {
                    query_completion(lower_of(query), names)
                } else {
                    None
                }
            },
        }
    }
}

/// The text that marks a replacement in ghost text.
pub open spec fn replacement_marker() -> Seq<char> {
    " \u{2192} "@
}

/// Ghost text for a completion: a suffix as it is, a replacement after the marker.
pub open spec fn ghost_text(c: CompletionSpec) -> Seq<char> {
    match c {
        CompletionSpec::Suffix(s) => s,
        CompletionSpec::Replacement(n) => replacement_marker() + n,
    }
}

fn verb_at(i: usize) -> (r: &'static str)
    requires
        i < 8,
    ensures
        r@ == verbs()[i as int],
{
    match i {
        0 => "play",
        1 => "vol",
        2 => "group all",
        3 => "ungroup",
        4 => "next",
        5 => "prev",
        6 => "sleep",
        _ => "reload",
    }
}

/// Completes a verb from the fixed vocabulary.
fn complete_verb(input: &[char]) -> (r: Option<Completion>)
    ensures
        completion_opt_view(r) == match verb_completion(input@, verbs()) {
            Some(rest) => Some(CompletionSpec::Suffix(rest)),
            None => None,
        },
{
    let mut i: usize = 0;
    assert(verbs().skip(0) =~= verbs());
    while i < 8
        invariant
            i <= 8,
            verb_completion(input@, verbs()) == verb_completion(input@, verbs().skip(i as int)),
        decreases 8 - i,
    {
        let verb = chars_of(verb_at(i));
        let full = input.len() == verb.len() && starts_with(verb.as_slice(), input);
        assert(verbs().skip(i as int)[0] == verbs()[i as int]);
        if starts_with(verb.as_slice(), input) && !full {
            proof {
                if input@ == verb@ {
                    assert(input@.len() == verb@.len());
                }
            }
            return Some(Completion::Suffix(string_of_range(verb.as_slice(), input.len(), verb.len())));
        }
        proof {
            if input@.is_prefix_of(verb@) && input@.len() == verb@.len() {
                assert(input@ =~= verb@);
            }
            assert(verbs().skip(i as int).drop_first() =~= verbs().skip(i + 1));
        }
        i += 1;
    }
    None
}

proof fn lemma_first_prefixed_at(q: Seq<char>, names: Seq<Seq<char>>, i: int)
    requires
        0 <= i <= names.len(),
        forall|j: int| 0 <= j < i ==> !q.is_prefix_of(#[trigger] names[j]),
    ensures
        first_prefixed(q, names) == match first_prefixed(q, names.skip(i)) {
            Some(k) => Some(k + i),
            None => None,
        },
    decreases i,
{
    if i > 0 {
        lemma_first_prefixed_at(q, names, i - 1);
        assert(names.skip(i - 1).drop_first() =~= names.skip(i));
        assert(names.skip(i - 1)[0] == names[i - 1]);
    } else {
        assert(names.skip(0) =~= names);
    }
}

proof fn lemma_first_containing_at(q: Seq<char>, names: Seq<Seq<char>>, i: int)
    requires
        0 <= i <= names.len(),
        forall|j: int| 0 <= j < i ==> !occurs_in(q, #[trigger] names[j]),
    ensures
        first_containing(q, names) == match first_containing(q, names.skip(i)) {
            Some(k) => Some(k + i),
            None => None,
        },
    decreases i,
{
    if i > 0 {
        lemma_first_containing_at(q, names, i - 1);
        assert(names.skip(i - 1).drop_first() =~= names.skip(i));
        assert(names.skip(i - 1)[0] == names[i - 1]);
    } else {
        assert(names.skip(0) =~= names);
    }
}

/// Index of the first of `names` that begins with `q`.
fn find_prefixed(q: &[char], names: &[String]) -> (r: Option<usize>)
    ensures
        match r {
            Some(j) => j < names@.len() && first_prefixed(q@, text_views(names@)) == Some(j as int),
            None => first_prefixed(q@, text_views(names@)) is None,
        },
{
    let ghost nv = text_views(names@);
    let mut i: usize = 0;
    while i < names.len()
        invariant
            i <= names@.len(),
            nv == text_views(names@),
            forall|j: int| 0 <= j < i ==> !q@.is_prefix_of(#[trigger] nv[j]),
        decreases names.len() - i,
    {
        let lv = chars_of(names[i].as_str());
        if starts_with(lv.as_slice(), q) {
            proof {
                lemma_first_prefixed_at(q@, nv, i as int);
                assert(nv.skip(i as int)[0] == nv[i as int]);
            }
            return Some(i);
        }
        i += 1;
    }
    proof {
        lemma_first_prefixed_at(q@, nv, i as int);
        assert(nv.skip(i as int).len() == 0);
    }
    None
}

/// Index of the first of `names` that holds `q`.
fn find_containing(q: &[char], names: &[String]) -> (r: Option<usize>)
    ensures
        match r {
            Some(j) => j < names@.len() && first_containing(q@, text_views(names@)) == Some(j as int),
            None => first_containing(q@, text_views(names@)) is None,
        },
{
    let ghost nv = text_views(names@);
    let mut i: usize = 0;
    while i < names.len()
        invariant
            i <= names@.len(),
            nv == text_views(names@),
            forall|j: int| 0 <= j < i ==> !occurs_in(q@, #[trigger] nv[j]),
        decreases names.len() - i,
    {
        let lv = chars_of(names[i].as_str());
        if occurs(lv.as_slice(), q) {
            proof {
                lemma_first_containing_at(q@, nv, i as int);
                assert(nv.skip(i as int)[0] == nv[i as int]);
            }
            return Some(i);
        }
        i += 1;
    }
    proof {
        lemma_first_containing_at(q@, nv, i as int);
        assert(nv.skip(i as int).len() == 0);
    }
    None
}

/// Completes a folded playlist query `q` against `names`, given the folded
/// form of each name in `folded`.
pub fn complete_among(q: &[char], names: &[String], folded: &[String]) -> (r: Option<Completion>)
    requires
        folded@.len() == names@.len(),
    ensures
        completion_opt_view(r) == completion_among(q@, text_views(names@), text_views(folded@)),
{
    match find_prefixed(q, folded) {
        Some(i) => {
            let lv = chars_of(folded[i].as_str());
            let same = lv.len() == q.len() && starts_with(lv.as_slice(), q);
            proof {
                if lv@.len() == q@.len() && q@.is_prefix_of(lv@) {
                    assert(lv@ =~= q@);
                }
            }
            if !same {
                let nv = chars_of(names[i].as_str());
                let from = if q.len() <= nv.len() {
                    q.len()
                } else {
                    nv.len()
                };
                let rest = string_of_range(nv.as_slice(), from, nv.len());
                proof {
                    if q@.len() > nv@.len() {
                        assert(nv@.subrange(nv@.len() as int, nv@.len() as int) =~= Seq::<char>::empty());
                    }
                }
                return Some(Completion::Suffix(rest));
            }
        },
        None => {},
    }
    match find_containing(q, folded) {
        Some(j) => Some(Completion::Replacement(names[j].clone())),
        None => None,
    }
}

/// The lower-case form of each name.
fn fold_names(names: &[String]) -> (r: Vec<String>)
    ensures
        text_views(r@) == folded_names(text_views(names@)),
{
    let mut r: Vec<String> = Vec::new();
    let mut i: usize = 0;
    while i < names.len()
        invariant
            i <= names@.len(),
            text_views(r@) == folded_names(text_views(names@.take(i as int))),
        decreases names.len() - i,
    {
        let ghost before = r@;
        let low = lowercase(names[i].as_str());
        r.push(low);
        assert(text_views(r@) =~= text_views(before).push(lower_of(names@[i as int]@)));
        assert(folded_names(text_views(names@.take(i + 1))) =~= folded_names(
            text_views(names@.take(i as int)),
        ).push(lower_of(names@[i as int]@)));
        i += 1;
    }
    assert(names@.take(i as int) =~= names@);
    r
}

/// Completes a lower-case playlist query against the names, ignoring their case.
pub fn complete_query(q: &[char], names: &[String]) -> (r: Option<Completion>)
    ensures
        completion_opt_view(r) == query_completion(q@, text_views(names@)),
{
    let folded = fold_names(names);
    complete_among(q, names, folded.as_slice())
}

/// The completion offered for a partly typed line, given the playlists'
/// display names.
pub fn suggest(input: &str, playlist_names: &[String]) -> (r: Option<Completion>)
    ensures
        completion_opt_view(r) == suggest_spec(input@, text_views(playlist_names@)),
{
    let iv = chars_of(input);
    if iv.len() == 0 {
        return None;
    }
    match find_char(iv.as_slice(), ' ') {
        None => complete_verb(iv.as_slice()),
        Some(k) => {
            let n = iv.len();
            assert(iv@.take(k as int) =~= iv@.subrange(0, k as int));
            assert(iv@.skip(k + 1) =~= iv@.subrange(k + 1, n as int));
            let is_play = spells(iv.as_slice(), 0, k, "play") || spells(iv.as_slice(), 0, k, "p");
            if is_play && k + 1 < n {
                let query = string_of_range(iv.as_slice(), k + 1, n);
                let low = lowercase(query.as_str());
                let q = chars_of(low.as_str());
                complete_query(q.as_slice(), playlist_names)
            } else {
                None
            }
        },
    }
}

/// Ghost text for a partly typed line: the suffix to append, or the marker
/// followed by a playlist name that replaces the query.
pub fn autocomplete(input: &str, playlist_names: &[String]) -> (r: Option<String>)
    ensures
        r matches Some(t) ==> suggest_spec(input@, text_views(playlist_names@)) matches Some(c)
            && t@ == ghost_text(c),
        r is None ==> suggest_spec(input@, text_views(playlist_names@)) is None,
{
    match suggest(input, playlist_names) {
        Some(Completion::Suffix(s)) => Some(s),
        Some(Completion::Replacement(name)) => {
            let mut t = String::from_str(" \u{2192} ");
            t.append(name.as_str());
            Some(t)
        },
        None => None,
    }
}

} // verus!
