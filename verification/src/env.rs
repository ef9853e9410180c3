//! Environment context.
use vstd::prelude::*;
use crate::text::{decimal, push_decimal, push_str, words, lines, split_words, split_lines, utf8_to_string, string_from_chars,
    is_white_space, lemma_words_append, lemma_words_blank, lemma_words_single};
use vstd::utf8::{valid_utf8, decode_utf8};

verus! {

/// Testing environment context data container.
///
/// Stores details about the hardware and software configuration under which
/// the tests or benchmarks were executed.
#[derive(Debug, Clone)]
pub struct Env {
    pub rust_version: String,
    /// Target triple (e.g., `x86_64-unknown-linux-gnu`)
    pub platform: String,
    pub package_name: String,
    pub package_version: String,
    pub cpu: String,
    /// Clock speed in Hz
    pub clock_speed: u64,
    /// Total memory in bytes
    pub total_memory: u64,
}

impl Env {
    /// The one-line description of the environment, after the CPU's label:
    /// `"{cpu_label} RAM {GB} GB running {platform} rustc {version} using {name} v{version}"`,
    /// where GB is the memory in whole (decimal) gigabytes, rounded down.
    pub open spec fn summary_text(self, cpu_label: Seq<char>) -> Seq<char> {
        cpu_label + " RAM "@ + decimal((self.total_memory / 1_000_000_000) as nat) + " GB running "@ + self.platform@
            + " rustc "@ + self.rust_version@ + " using "@ + self.package_name@ + " v"@ + self.package_version@
    }

    /// Describes the environment, given the label of its CPU (its model and
    /// clock speed).
    pub fn summary_with_cpu(&self, cpu_label: &str) -> (r: String)
        ensures
            r@ == self.summary_text(cpu_label@),
    {
        let mut s = String::new();
        push_str(&mut s, cpu_label);
        push_str(&mut s, " RAM ");
        push_decimal(&mut s, (self.total_memory / 1_000_000_000) as u128);
        push_str(&mut s, " GB running ");
        push_str(&mut s, self.platform.as_str());
        push_str(&mut s, " rustc ");
        push_str(&mut s, self.rust_version.as_str());
        push_str(&mut s, " using ");
        push_str(&mut s, self.package_name.as_str());
        push_str(&mut s, " v");
        push_str(&mut s, self.package_version.as_str());
        assert(s@ =~= self.summary_text(cpu_label@));
        s
    }
}

/// The version that `rustc --version` printed on `stdout` (its second word,
/// as in `rustc 1.90.0 (...)`), or `"unknown"` when the command gave no
/// output, the output is not UTF-8, or it has fewer than two words.
pub open spec fn rustc_version_text(stdout: Option<Vec<u8>>) -> Seq<char> {
    match stdout {
        Some(b) => if valid_utf8(b@) && words(decode_utf8(b@)).len() >= 2 {
            words(decode_utf8(b@))[1]
        } else {
            "unknown"@
        },
        None => "unknown"@,
    }
}

/// Extracts the compiler version from the output of `rustc --version`.
pub fn rustc_version_from_output(stdout: Option<Vec<u8>>) -> (r: String)
    ensures
        r@ == rustc_version_text(stdout),
{
    match stdout {
        Some(bytes) => {
            match utf8_to_string(bytes) {
                Some(text) => {
                    let ws = split_words(text.as_str());
                    if ws.len() >= 2 {
                        return ws[1].clone();
                    }
                    "unknown".to_owned()
                },
                None => "unknown".to_owned(),
            }
        },
        None => "unknown".to_owned(),
    }
}

/// The version is the second word of `rustc --version`'s output exactly as
/// it stands, a pre-release suffix such as `-nightly` included: when the
/// output is optional white space, a word, white space, a second word, and
/// then nothing or text that begins with white space, the version is that
/// second word, character for character.
pub proof fn lemma_version_is_second_word(
    b: Vec<u8>,
    lead: Seq<char>,
    first: Seq<char>,
    gap: Seq<char>,
    second: Seq<char>,
    rest: Seq<char>,
)
    requires
        valid_utf8(b@),
        decode_utf8(b@) == lead + first + gap + second + rest,
        forall|i: int| 0 <= i < lead.len() ==> is_white_space(#[trigger] lead[i]),
        first.len() > 0,
        forall|i: int| 0 <= i < first.len() ==> !is_white_space(#[trigger] first[i]),
        gap.len() > 0,
        forall|i: int| 0 <= i < gap.len() ==> is_white_space(#[trigger] gap[i]),
        second.len() > 0,
        forall|i: int| 0 <= i < second.len() ==> !is_white_space(#[trigger] second[i]),
        rest.len() == 0 || is_white_space(rest[0]),
    ensures
        rustc_version_text(Some(b)) == second,
{
    if lead.len() > 0 {
        assert(is_white_space(lead[lead.len() - 1]));
    }
    lemma_words_blank(lead);
    lemma_words_single(first);
    lemma_words_append(lead, first);
    let a = lead + first;
    assert(is_white_space(gap[0]));
    lemma_words_blank(gap);
    lemma_words_append(a, gap);
    let g = a + gap;
    assert(g.last() == gap[gap.len() - 1]);
    lemma_words_single(second);
    lemma_words_append(g, second);
    let h = g + second;
    lemma_words_append(h, rest);
    assert(words(lead + first) =~= seq![first]);
    assert(words(g) =~= seq![first]);
    assert(words(h) =~= seq![first, second]);
    assert(words(decode_utf8(b@))[1] == second);
}

/// The version reads `unknown` when `rustc --version` gave no output, when
/// the output is not UTF-8, and when it holds fewer than two words: optional
/// white space, at most one word, optional white space.
pub proof fn lemma_version_unknown(b: Vec<u8>, lead: Seq<char>, only: Seq<char>, trail: Seq<char>)
    ensures
        rustc_version_text(None) == seq!['u', 'n', 'k', 'n', 'o', 'w', 'n'],
        !valid_utf8(b@) ==> rustc_version_text(Some(b)) == seq!['u', 'n', 'k', 'n', 'o', 'w', 'n'],
        valid_utf8(b@) && decode_utf8(b@) == lead + only + trail && (forall|i: int|
            0 <= i < lead.len() ==> is_white_space(#[trigger] lead[i])) && (forall|i: int|
            0 <= i < only.len() ==> !is_white_space(#[trigger] only[i])) && (forall|i: int|
            0 <= i < trail.len() ==> is_white_space(#[trigger] trail[i])) ==> rustc_version_text(Some(b)) == seq![
            'u',
            'n',
            'k',
            'n',
            'o',
            'w',
            'n',
        ],
{
    reveal_strlit("unknown");
    assert("unknown"@ =~= seq!['u', 'n', 'k', 'n', 'o', 'w', 'n']);
    if valid_utf8(b@) && decode_utf8(b@) == lead + only + trail && (forall|i: int|
        0 <= i < lead.len() ==> is_white_space(#[trigger] lead[i])) && (forall|i: int|
        0 <= i < only.len() ==> !is_white_space(#[trigger] only[i])) && (forall|i: int|
        0 <= i < trail.len() ==> is_white_space(#[trigger] trail[i])) {
        lemma_words_blank(lead);
        lemma_words_blank(trail);
        if lead.len() > 0 {
            assert(is_white_space(lead[lead.len() - 1]));
        }
        if trail.len() > 0 {
            assert(is_white_space(trail[0]));
        }
        let a = lead + only;
        if only.len() > 0 {
            lemma_words_single(only);
        } else {
            lemma_words_blank(only);
        }
        lemma_words_append(lead, only);
        lemma_words_append(a, trail);
        assert(words(a + trail).len() <= 1);
    }
}

/// `host:`
pub open spec fn host_key() -> Seq<char> {
    seq!['h', 'o', 's', 't', ':']
}

/// `s` begins with `prefix`.
pub open spec fn starts_with(s: Seq<char>, prefix: Seq<char>) -> bool {
    prefix.len() <= s.len() && s.take(prefix.len() as int) == prefix
}

/// The host named by the first line that begins with `host:`, if that line
/// begins with `host: `; `None` otherwise or when no line begins with `host:`.
pub open spec fn first_host_value(ls: Seq<Seq<char>>) -> Option<Seq<char>>
    decreases ls.len(),
{
    if ls.len() == 0 {
        None
    } else if starts_with(ls[0], host_key()) {
        if starts_with(ls[0], host_key().push(' ')) { Some(ls[0].skip(6)) } else { None }
    } else {
        first_host_value(ls.drop_first())
    }
}

/// The host triple that `rustc -vV` printed on `stdout`, if any.
pub open spec fn rustc_host_text(stdout: Option<Vec<u8>>) -> Option<Seq<char>> {
    match stdout {
        Some(b) => if valid_utf8(b@) { first_host_value(lines(decode_utf8(b@))) } else { None },
        None => None,
    }
}

fn has_host_prefix(line: &Vec<char>, with_space: bool) -> (r: bool)
    ensures
        r == starts_with(line@, if with_space { host_key().push(' ') } else { host_key() }),
{
    let ghost key = if with_space { host_key().push(' ') } else { host_key() };
    let need: usize = if with_space { 6 } else { 5 };
    if line.len() < need {
        return false;
    }
    let ok = line[0] == 'h' && line[1] == 'o' && line[2] == 's' && line[3] == 't' && line[4] == ':' && (!with_space
        || line[5] == ' ');
    if ok {
        assert(line@.take(need as int) =~= key);
    } else {
        assert(line@.take(need as int)[0] == line@[0]);
        assert(line@.take(need as int)[1] == line@[1]);
        assert(line@.take(need as int)[2] == line@[2]);
        assert(line@.take(need as int)[3] == line@[3]);
        assert(line@.take(need as int)[4] == line@[4]);
        assert(with_space ==> line@.take(need as int)[5] == line@[5]);
    }
    ok
}

/// Extracts the host triple from the output of `rustc -vV`.
pub fn host_from_rustc_output(stdout: Option<Vec<u8>>) -> (r: Option<String>)
    ensures
        match r {
            Some(h) => rustc_host_text(stdout) == Some(h@),
            None => rustc_host_text(stdout) is None,
        },
{
    let bytes = match stdout {
        Some(b) => b,
        None => {
            return None;
        },
    };
    let text = match utf8_to_string(bytes) {
        Some(t) => t,
        None => {
            return None;
        },
    };
    let ls = split_lines(text.as_str());
    let ghost all = lines(text@);
    assert(rustc_host_text(stdout) == first_host_value(all));
    let mut i: usize = 0;
    assert(all.skip(0) =~= all);
    while i < ls.len()
        invariant
            i <= ls.len(),
            crate::text::char_rows_view(ls@) == all,
            first_host_value(all) == first_host_value(all.skip(i as int)),
            rustc_host_text(stdout) == first_host_value(all),
        decreases ls.len() - i,
    {
        assert(all.skip(i as int)[0] == all[i as int]);
        assert(all.skip(i as int).drop_first() =~= all.skip(i + 1));
        if has_host_prefix(&ls[i], false) {
            if has_host_prefix(&ls[i], true) {
                return Some(string_from_chars(&ls[i], 6));
            }
            return None;
        }
        i = i + 1;
    }
    None
}

/// How a CPU is labelled with its clock speed: the bare model name when the
/// speed is unknown (0), `"{cpu} @{gigahertz} GHz"` above one gigahertz, and
/// `"{cpu} @{megahertz} MHz"` (whole megahertz, rounded down) otherwise.
pub open spec fn cpu_label_text(cpu: Seq<char>, clock_speed: u64, gigahertz: Seq<char>) -> Seq<char> {
    if clock_speed == 0 {
        cpu
    } else if clock_speed > 1_000_000_000 {
        cpu + " @"@ + gigahertz + " GHz"@
    } else {
        cpu + " @"@ + decimal((clock_speed / 1_000_000) as nat) + " MHz"@
    }
}

/// `r` labels `cpu` with `clock_speed`, the gigahertz figure (when one is
/// shown) being a rendering of the speed by `gigahertz`.
pub open spec fn is_cpu_label<F: Fn(u64) -> String>(cpu: Seq<char>, clock_speed: u64, gigahertz: F, r: Seq<char>) -> bool {
    if clock_speed > 1_000_000_000 {
        exists|g: String| #[trigger] call_ensures(gigahertz, (clock_speed,), g) && r == cpu_label_text(cpu, clock_speed, g@)
    } else {
        r == cpu_label_text(cpu, clock_speed, Seq::empty())
    }
}

/// Formats a CPU model name and its clock speed (in Hz) into a
/// human-readable string, e.g. `"Intel Core i5 @800 MHz"`. Speeds above one
/// gigahertz are shown in GHz as `gigahertz` renders them (one decimal place).
pub fn format_cpu_with_clock_speed<F: Fn(u64) -> String>(cpu: &str, clock_speed: u64, gigahertz: &F) -> (r: String)
    requires
        call_requires(*gigahertz, (clock_speed,)),
    ensures
        is_cpu_label(cpu@, clock_speed, *gigahertz, r@),
{
    let mut s = String::new();
    push_str(&mut s, cpu);
    if clock_speed == 0 {
        assert(s@ =~= cpu@);
        return s;
    }
    push_str(&mut s, " @");
    if clock_speed > 1_000_000_000 {
        let g = gigahertz(clock_speed);
        push_str(&mut s, g.as_str());
        push_str(&mut s, " GHz");
        assert(s@ =~= cpu_label_text(cpu@, clock_speed, g@));
    } else {
        push_decimal(&mut s, (clock_speed / 1_000_000) as u128);
        push_str(&mut s, " MHz");
        assert(s@ =~= cpu_label_text(cpu@, clock_speed, Seq::empty()));
    }
    s
}

/// Every clock speed strictly above 1 000 000 000 Hz is shown in gigahertz:
/// the label is the model, `" @"`, a rendering of the speed by `gigahertz`,
/// and `" GHz"`. Megahertz (whole, rounded down) are used for speeds in
/// (0, 1 000 000 000] only, and an unknown speed (0) leaves the bare model.
pub proof fn lemma_cpu_label_units<F: Fn(u64) -> String>(cpu: Seq<char>, clock_speed: u64, gigahertz: F, r: Seq<char>)
    requires
        is_cpu_label(cpu, clock_speed, gigahertz, r),
    ensures
        clock_speed > 1_000_000_000 ==> exists|g: String| #[trigger] call_ensures(gigahertz, (clock_speed,), g) && r
            == cpu + seq![' ', '@'] + g@ + seq![' ', 'G', 'H', 'z'],
        0 < clock_speed <= 1_000_000_000 ==> r == cpu + seq![' ', '@'] + decimal((clock_speed / 1_000_000) as nat) + seq![
            ' ',
            'M',
            'H',
            'z',
        ],
        clock_speed == 0 ==> r == cpu,
{
    reveal_strlit(" @");
    reveal_strlit(" GHz");
    reveal_strlit(" MHz");
    assert(" @"@ =~= seq![' ', '@']);
    assert(" GHz"@ =~= seq![' ', 'G', 'H', 'z']);
    assert(" MHz"@ =~= seq![' ', 'M', 'H', 'z']);
}

impl Env {
    /// The one-line description of the environment: its CPU labelled with
    /// the clock speed (see [`format_cpu_with_clock_speed`]), then memory,
    /// platform, compiler and package.
    pub fn describe<F: Fn(u64) -> String>(&self, gigahertz: &F) -> (r: String)
        requires
            call_requires(*gigahertz, (self.clock_speed,)),
        ensures
            exists|label: Seq<char>| is_cpu_label(self.cpu@, self.clock_speed, *gigahertz, label) && r@ == self.summary_text(label),
    {
        let label = format_cpu_with_clock_speed(self.cpu.as_str(), self.clock_speed, gigahertz);
        self.summary_with_cpu(label.as_str())
    }
}

proof fn lemma_first_host_value_at(ls: Seq<Seq<char>>, i: int)
    requires
        0 <= i < ls.len(),
        ls[i].len() >= 5 && ls[i].take(5) == seq!['h', 'o', 's', 't', ':'],
        forall|j: int| 0 <= j < i ==> !(ls[j].len() >= 5 && #[trigger] ls[j].take(5) == seq!['h', 'o', 's', 't', ':']),
    ensures
        ls[i].len() >= 6 && ls[i][5] == ' ' ==> first_host_value(ls) == Some(ls[i].skip(6)),
        !(ls[i].len() >= 6 && ls[i][5] == ' ') ==> first_host_value(ls) is None,
    decreases i,
{
    if ls[i].len() >= 6 && ls[i][5] == ' ' {
        assert(ls[i].take(6) =~= ls[i].take(5).push(' '));
    } else if ls[i].len() >= 6 {
        assert(ls[i].take(6)[5] == ls[i][5]);
    }
    assert(host_key() =~= seq!['h', 'o', 's', 't', ':']);
    assert(host_key().push(' ') =~= seq!['h', 'o', 's', 't', ':', ' ']);
    if i > 0 {
        assert(!(ls[0].len() >= 5 && ls[0].take(5) == seq!['h', 'o', 's', 't', ':']));
        assert forall|j: int| 0 <= j < i - 1 implies !(ls.drop_first()[j].len() >= 5 && #[trigger] ls.drop_first()[j].take(5)
            == seq!['h', 'o', 's', 't', ':']) by {
            assert(ls.drop_first()[j] == ls[j + 1]);
        }
        lemma_first_host_value_at(ls.drop_first(), i - 1);
    }
}

proof fn lemma_first_host_value_none(ls: Seq<Seq<char>>)
    requires
        forall|j: int| 0 <= j < ls.len() ==> !(ls[j].len() >= 5 && #[trigger] ls[j].take(5) == seq!['h', 'o', 's', 't', ':']),
    ensures
        first_host_value(ls) is None,
    decreases ls.len(),
{
    assert(host_key() =~= seq!['h', 'o', 's', 't', ':']);
    if ls.len() > 0 {
        assert(!(ls[0].len() >= 5 && ls[0].take(5) == seq!['h', 'o', 's', 't', ':']));
        assert forall|j: int| 0 <= j < ls.len() - 1 implies !(ls.drop_first()[j].len() >= 5 && #[trigger] ls.drop_first()[
            j].take(5) == seq!['h', 'o', 's', 't', ':']) by {
            assert(ls.drop_first()[j] == ls[j + 1]);
        }
        lemma_first_host_value_none(ls.drop_first());
    }
}

/// The host is searched for on every line of `rustc -vV`'s output: when the
/// first line that begins with `host:` is line `i`, the host is the rest of
/// that line after `host: ` if it begins so, wherever the line stands, and
/// there is none if it does not; when no line begins with `host:`, there is
/// none either. Output that is not UTF-8, or no output, has no host.
pub proof fn lemma_host_from_any_line(b: Vec<u8>, i: int)
    ensures
        ({
            let ls = lines(decode_utf8(b@));
            valid_utf8(b@) && 0 <= i < ls.len() && ls[i].len() >= 6 && ls[i].take(6) == seq!['h', 'o', 's', 't', ':', ' ']
                && (forall|j: int| 0 <= j < i ==> !(ls[j].len() >= 5 && #[trigger] ls[j].take(5) == seq!['h', 'o', 's', 't', ':']))
                ==> rustc_host_text(Some(b)) == Some(ls[i].skip(6))
        }),
        ({
            let ls = lines(decode_utf8(b@));
            valid_utf8(b@) && 0 <= i < ls.len() && ls[i].len() >= 5 && ls[i].take(5) == seq!['h', 'o', 's', 't', ':'] && !(
            ls[i].len() >= 6 && ls[i][5] == ' ') && (forall|j: int|
                0 <= j < i ==> !(ls[j].len() >= 5 && #[trigger] ls[j].take(5) == seq!['h', 'o', 's', 't', ':']))
                ==> rustc_host_text(Some(b)) is None
        }),
        valid_utf8(b@) && (forall|j: int|
            0 <= j < lines(decode_utf8(b@)).len() ==> !(lines(decode_utf8(b@))[j].len() >= 5 && #[trigger] lines(
                decode_utf8(b@),
            )[j].take(5) == seq!['h', 'o', 's', 't', ':'])) ==> rustc_host_text(Some(b)) is None,
        !valid_utf8(b@) ==> rustc_host_text(Some(b)) is None,
        rustc_host_text(None) is None,
{
    let ls = lines(decode_utf8(b@));
    if 0 <= i < ls.len() && ls[i].len() >= 6 && ls[i].take(6) == seq!['h', 'o', 's', 't', ':', ' '] {
        assert(ls[i].take(5) =~= ls[i].take(6).take(5));
        assert(seq!['h', 'o', 's', 't', ':', ' '].take(5) =~= seq!['h', 'o', 's', 't', ':']);
        assert(ls[i].take(5) == seq!['h', 'o', 's', 't', ':']);
        assert(ls[i][5] == ls[i].take(6)[5]);
    }
    if 0 <= i < ls.len() && ls[i].len() >= 5 && ls[i].take(5) == seq!['h', 'o', 's', 't', ':'] && (forall|j: int|
        0 <= j < i ==> !(ls[j].len() >= 5 && #[trigger] ls[j].take(5) == seq!['h', 'o', 's', 't', ':'])) {
        lemma_first_host_value_at(ls, i);
    }
    if forall|j: int| 0 <= j < ls.len() ==> !(ls[j].len() >= 5 && #[trigger] ls[j].take(5) == seq!['h', 'o', 's', 't', ':']) {
        lemma_first_host_value_none(ls);
    }
}

} // verus!
