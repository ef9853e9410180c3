//! Small verified string helpers: decimal rendering of integers and
//! lexicographic comparison of strings.
use vstd::prelude::*;
use vstd::string::*;

verus! {

/// The ASCII digit for `d` (`d < 10`).
pub open spec fn digit_char(d: nat) -> char {
    if d == 0 { '0' }
    else if d == 1 { '1' }
    else if d == 2 { '2' }
    else if d == 3 { '3' }
    else if d == 4 { '4' }
    else if d == 5 { '5' }
    else if d == 6 { '6' }
    else if d == 7 { '7' }
    else if d == 8 { '8' }
    else { '9' }
}

/// The base-10 representation of `n`, without leading zeros.
pub open spec fn decimal(n: nat) -> Seq<char>
    decreases n,
{
    if n < 10 {
        seq![digit_char(n)]
    } else {
        decimal(n / 10).push(digit_char(n % 10))
    }
}

/// Lexicographic order on strings by Unicode code point, the order of `str`'s `Ord`.
pub open spec fn lex_less(a: Seq<char>, b: Seq<char>) -> bool
    decreases a.len(),
{
    if b.len() == 0 {
        false
    } else if a.len() == 0 {
        true
    } else if a[0] != b[0] {
        (a[0] as u32) < (b[0] as u32)
    } else {
        lex_less(a.drop_first(), b.drop_first())
    }
}

/// The number that a string of ASCII digits spells in base 10.
pub open spec fn digits_value(s: Seq<char>) -> int
    decreases s.len(),
{
    if s.len() == 0 {
        0
    } else {
        digits_value(s.drop_last()) * 10 + ((s.last() as u32) - ('0' as u32))
    }
}

/// `decimal(n)` is the base-10 numeral of `n`: ASCII digits only, a leading
/// `'0'` only for zero itself, and reading it back gives `n`.
pub proof fn lemma_decimal_spells(n: nat)
    ensures
        decimal(n).len() > 0,
        forall|i: int| 0 <= i < decimal(n).len() ==> '0' <= #[trigger] decimal(n)[i] <= '9',
        decimal(n)[0] == '0' ==> n == 0,
        digits_value(decimal(n)) == n,
    decreases n,
{
    let d = (n % 10) as nat;
    assert(d == 0 || d == 1 || d == 2 || d == 3 || d == 4 || d == 5 || d == 6 || d == 7 || d == 8 || d == 9);
    assert((digit_char(d) as u32) - ('0' as u32) == d);
    if n >= 10 {
        lemma_decimal_spells(n / 10);
        let p = decimal(n / 10);
        assert(decimal(n) == p.push(digit_char(d)));
        assert(decimal(n).drop_last() =~= p);
        assert(decimal(n)[0] == p[0]);
        assert forall|i: int| 0 <= i < decimal(n).len() implies '0' <= #[trigger] decimal(n)[i] <= '9' by {
            if i < p.len() {
                assert(decimal(n)[i] == p[i]);
            }
        }
        assert(n / 10 > 0);
        assert(decimal(n).last() == digit_char(d));
        assert(digits_value(decimal(n)) == digits_value(p) * 10 + d);
        assert((n / 10) * 10 + d == n);
    } else {
        assert(decimal(n) == seq![digit_char(n)]);
        assert(decimal(n).drop_last() =~= Seq::<char>::empty());
        assert(digits_value(Seq::<char>::empty()) == 0);
        assert(d == n);
        assert(digits_value(decimal(n)) == digits_value(decimal(n).drop_last()) * 10 + d);
    }
}

/// Appends one character to a `String` (`String::push`).
#[verifier::external_body]
pub fn push_char(s: &mut String, c: char)
    ensures
        final(s)@ == old(s)@.push(c),
{
    s.push(c);
}

fn digit_to_char(d: u8) -> (c: char)
    requires
        d < 10,
    ensures
        c == digit_char(d as nat),
{
    if d == 0 { '0' }
    else if d == 1 { '1' }
    else if d == 2 { '2' }
    else if d == 3 { '3' }
    else if d == 4 { '4' }
    else if d == 5 { '5' }
    else if d == 6 { '6' }
    else if d == 7 { '7' }
    else if d == 8 { '8' }
    else { '9' }
}

/// Appends the decimal representation of `n` to `s`.
pub fn push_decimal(s: &mut String, n: u128)
    ensures
        final(s)@ == old(s)@ + decimal(n as nat),
    decreases n,
{
    if n < 10 {
        let c = digit_to_char(n as u8);
        push_char(s, c);
        assert(decimal(n as nat) =~= seq![c]);
        assert(old(s)@.push(c) =~= old(s)@ + seq![c]);
    } else {
        push_decimal(s, n / 10);
        let c = digit_to_char((n % 10) as u8);
        push_char(s, c);
        assert(old(s)@ + decimal(n as nat) =~= old(s)@ + decimal((n / 10) as nat) + seq![c]);
    }
}

/// The decimal representation of `n` as a new `String`.
pub fn decimal_string(n: u128) -> (r: String)
    ensures
        r@ == decimal(n as nat),
{
    let mut s = String::new();
    push_decimal(&mut s, n);
    assert(Seq::<char>::empty() + decimal(n as nat) =~= decimal(n as nat));
    s
}

/// Appends `t` to `s`.
pub fn push_str(s: &mut String, t: &str)
    ensures
        final(s)@ == old(s)@ + t@,
{
    s.append(t);
}

proof fn lemma_lex_skip(a: Seq<char>, b: Seq<char>, i: int)
    requires
        0 <= i < a.len(),
        i < b.len(),
        a[i] == b[i],
    ensures
        lex_less(a.skip(i), b.skip(i)) == lex_less(a.skip(i + 1), b.skip(i + 1)),
{
    assert(a.skip(i).drop_first() =~= a.skip(i + 1));
    assert(b.skip(i).drop_first() =~= b.skip(i + 1));
}

/// Whether `a` comes strictly before `b` in the order of `str`'s `Ord`.
pub fn str_less(a: &str, b: &str) -> (r: bool)
    ensures
        r == lex_less(a@, b@),
{
    let la: usize = a.unicode_len();
    let lb: usize = b.unicode_len();
    let mut i: usize = 0;
    assert(a@.skip(0) =~= a@);
    assert(b@.skip(0) =~= b@);
    while i < la && i < lb
        invariant
            la == a@.len(),
            lb == b@.len(),
            i <= la,
            i <= lb,
            lex_less(a@, b@) == lex_less(a@.skip(i as int), b@.skip(i as int)),
        decreases la - i,
    {
        let ca = a.get_char(i);
        let cb = b.get_char(i);
        if ca != cb {
            assert(a@.skip(i as int)[0] == ca);
            assert(b@.skip(i as int)[0] == cb);
            return (ca as u32) < (cb as u32);
        }
        proof {
            lemma_lex_skip(a@, b@, i as int);
        }
        i = i + 1;
    }
    i < lb
}

/// No string comes strictly before itself.
pub proof fn lemma_lex_irreflexive(a: Seq<char>)
    ensures
        !lex_less(a, a),
    decreases a.len(),
{
    if a.len() > 0 {
        lemma_lex_irreflexive(a.drop_first());
    }
}

/// The order of strings is transitive.
pub proof fn lemma_lex_transitive(a: Seq<char>, b: Seq<char>, c: Seq<char>)
    ensures
        lex_less(a, b) && lex_less(b, c) ==> lex_less(a, c),
    decreases a.len(),
{
    if a.len() > 0 && b.len() > 0 && c.len() > 0 {
        lemma_lex_transitive(a.drop_first(), b.drop_first(), c.drop_first());
    }
}

/// The Unicode `White_Space` property (PropList.txt), which `char::is_whitespace` tests.
pub open spec fn is_white_space(c: char) -> bool {
    let v = c as u32;
    ||| 0x9 <= v <= 0xD
    ||| v == 0x20
    ||| v == 0x85
    ||| v == 0xA0
    ||| v == 0x1680
    ||| 0x2000 <= v <= 0x200A
    ||| v == 0x2028
    ||| v == 0x2029
    ||| v == 0x202F
    ||| v == 0x205F
    ||| v == 0x3000
}

/// Whether `c` is a white-space character.
pub fn is_white_space_char(c: char) -> (r: bool)
    ensures
        r == is_white_space(c),
{
    let v: u32 = c as u32;
    (0x9 <= v && v <= 0xD) || v == 0x20 || v == 0x85 || v == 0xA0 || v == 0x1680 || (0x2000 <= v && v <= 0x200A)
        || v == 0x2028 || v == 0x2029 || v == 0x202F || v == 0x205F || v == 0x3000
}

/// The words of `s`: its maximal runs of non-white-space characters, in
/// order (what `str::split_whitespace` yields).
pub open spec fn words(s: Seq<char>) -> Seq<Seq<char>>
    decreases s.len(),
{
    if s.len() == 0 {
        seq![]
    } else {
        let p = s.drop_last();
        let c = s.last();
        if is_white_space(c) {
            words(p)
        } else if p.len() > 0 && !is_white_space(p.last()) {
            let w = words(p);
            w.update(w.len() - 1, w.last().push(c))
        } else {
            words(p).push(seq![c])
        }
    }
}

/// A text ending in a non-white-space character has a word.
pub proof fn lemma_words_nonempty(s: Seq<char>)
    requires
        s.len() > 0,
        !is_white_space(s.last()),
    ensures
        words(s).len() > 0,
    decreases s.len(),
{
    let p = s.drop_last();
    if p.len() > 0 && !is_white_space(p.last()) {
        lemma_words_nonempty(p);
    }
}

/// A text made of white space alone has no word.
pub proof fn lemma_words_blank(s: Seq<char>)
    requires
        forall|i: int| 0 <= i < s.len() ==> is_white_space(#[trigger] s[i]),
    ensures
        words(s) == Seq::<Seq<char>>::empty(),
    decreases s.len(),
{
    if s.len() > 0 {
        assert(is_white_space(s[s.len() - 1]));
        lemma_words_blank(s.drop_last());
    }
}

/// A non-empty text without white space is a single word.
pub proof fn lemma_words_single(w: Seq<char>)
    requires
        w.len() > 0,
        forall|i: int| 0 <= i < w.len() ==> !is_white_space(#[trigger] w[i]),
    ensures
        words(w) == seq![w],
    decreases w.len(),
{
    let p = w.drop_last();
    assert(!is_white_space(w[w.len() - 1]));
    if p.len() > 0 {
        assert(!is_white_space(w[p.len() - 1]));
        lemma_words_single(p);
        assert(p.push(w.last()) =~= w);
        assert(words(w) =~= seq![w]);
    } else {
        assert(seq![w.last()] =~= w);
        assert(words(p) =~= Seq::<Seq<char>>::empty());
        assert(words(w) == words(p).push(seq![w.last()]));
        assert(words(w) =~= seq![w]);
    }
}

/// Two texts that meet at white space (or of which one is empty) have, put
/// together, the words of the first followed by the words of the second.
pub proof fn lemma_words_append(s: Seq<char>, t: Seq<char>)
    requires
        s.len() == 0 || t.len() == 0 || is_white_space(s.last()) || is_white_space(t[0]),
    ensures
        words(s + t) == words(s) + words(t),
    decreases t.len(),
{
    if t.len() == 0 {
        assert(s + t =~= s);
        assert(words(s) + words(t) =~= words(s));
    } else {
        let u = s + t;
        let t1 = t.drop_last();
        let c = t.last();
        let p = s + t1;
        assert(u.drop_last() =~= p);
        assert(u.last() == c);
        if t1.len() > 0 {
            assert(t1[0] == t[0]);
        }
        lemma_words_append(s, t1);
        if is_white_space(c) {
        } else if p.len() > 0 && !is_white_space(p.last()) {
            if t1.len() == 0 {
                assert(p =~= s);
                assert(t[0] == c);
                assert(false);
            }
            assert(p.last() == t1.last());
            lemma_words_nonempty(t1);
            let a = words(s);
            let b = words(t1);
            let nb = b.update(b.len() - 1, b.last().push(c));
            assert(words(t) == nb);
            assert((a + b).last() == b.last());
            assert((a + b).update((a + b).len() - 1, b.last().push(c)) =~= a + nb);
        } else {
            if t1.len() > 0 {
                assert(p.last() == t1.last());
                assert(words(t) == words(t1).push(seq![c]));
                assert((words(s) + words(t1)).push(seq![c]) =~= words(s) + words(t1).push(seq![c]));
            } else {
                assert(p =~= s);
                assert(words(t) == words(t1).push(seq![c]));
                assert(words(t1) =~= Seq::<Seq<char>>::empty());
                assert(words(s).push(seq![c]) =~= words(s) + words(t));
            }
        }
    }
}

/// The pieces of `s` between its newline characters (one more than there are newlines).
pub open spec fn newline_pieces(s: Seq<char>) -> Seq<Seq<char>>
    decreases s.len(),
{
    if s.len() == 0 {
        seq![seq![]]
    } else {
        let ps = newline_pieces(s.drop_last());
        if s.last() == '\n' {
            ps.push(seq![])
        } else {
            ps.update(ps.len() - 1, ps.last().push(s.last()))
        }
    }
}

pub proof fn lemma_newline_pieces_nonempty(s: Seq<char>)
    ensures
        newline_pieces(s).len() > 0,
    decreases s.len(),
{
    if s.len() > 0 {
        lemma_newline_pieces_nonempty(s.drop_last());
    }
}

/// A line as it is terminated by `\r\n` or `\n`: without a final carriage return.
pub open spec fn strip_carriage_return(l: Seq<char>) -> Seq<char> {
    if l.len() > 0 && l.last() == '\r' { l.drop_last() } else { l }
}

/// The lines of `s`, as `str::lines` documents them: split at `\n` or
/// `\r\n`, terminators removed, the final line ending optional.
pub open spec fn lines(s: Seq<char>) -> Seq<Seq<char>> {
    let ps = newline_pieces(s);
    let n = ps.len() as int;
    let terminated = ps.take(n - 1).map_values(|l: Seq<char>| strip_carriage_return(l));
    if ps[n - 1].len() == 0 { terminated } else { terminated.push(ps[n - 1]) }
}

proof fn lemma_newline_pieces_no_newline(a: Seq<char>)
    requires
        forall|i: int| 0 <= i < a.len() ==> #[trigger] a[i] != '\n',
    ensures
        newline_pieces(a) == seq![a],
    decreases a.len(),
{
    if a.len() > 0 {
        let p = a.drop_last();
        assert(a[a.len() - 1] != '\n');
        lemma_newline_pieces_no_newline(p);
        assert(p.push(a.last()) =~= a);
        assert(newline_pieces(a) =~= seq![a]);
    } else {
        assert(a =~= Seq::<char>::empty());
    }
}

proof fn lemma_newline_pieces_after_newline(a: Seq<char>, b: Seq<char>)
    requires
        forall|i: int| 0 <= i < a.len() ==> #[trigger] a[i] != '\n',
    ensures
        newline_pieces(a + seq!['\n'] + b) == seq![a] + newline_pieces(b),
    decreases b.len(),
{
    let h = a + seq!['\n'];
    if b.len() == 0 {
        assert(h + b =~= h);
        assert(h.drop_last() =~= a);
        lemma_newline_pieces_no_newline(a);
        assert(newline_pieces(h) =~= seq![a].push(seq![]));
        assert(newline_pieces(b) =~= seq![Seq::<char>::empty()]);
        assert(seq![a] + newline_pieces(b) =~= seq![a].push(seq![]));
    } else {
        let b1 = b.drop_last();
        let c = b.last();
        assert((h + b).drop_last() =~= h + b1);
        assert((h + b).last() == c);
        lemma_newline_pieces_after_newline(a, b1);
        lemma_newline_pieces_nonempty(b1);
        let q = newline_pieces(b1);
        if c == '\n' {
            assert((seq![a] + q).push(seq![]) =~= seq![a] + q.push(seq![]));
        } else {
            let x = q.last().push(c);
            assert((seq![a] + q).last() == q.last());
            assert((seq![a] + q).update((seq![a] + q).len() - 1, x) =~= seq![a] + q.update(q.len() - 1, x));
        }
    }
}

/// How a text falls into lines: a text without a newline is one line (none
/// when it is empty), and a line followed by a newline is that line (less a
/// carriage return before the newline) followed by the lines of what comes
/// after.
pub proof fn lemma_lines_split(a: Seq<char>, b: Seq<char>)
    requires
        forall|i: int| 0 <= i < a.len() ==> #[trigger] a[i] != '\n',
    ensures
        lines(a + seq!['\n'] + b) == seq![if a.len() > 0 && a.last() == '\r' { a.drop_last() } else { a }] + lines(b),
        a.len() > 0 ==> lines(a) == seq![a],
        a.len() == 0 ==> lines(a) == Seq::<Seq<char>>::empty(),
{
    lemma_newline_pieces_no_newline(a);
    assert(lines(a) =~= (if a.len() == 0 { Seq::<Seq<char>>::empty() } else { seq![a] }));
    lemma_newline_pieces_after_newline(a, b);
    lemma_newline_pieces_nonempty(b);
    let q = newline_pieces(b);
    let ps = seq![a] + q;
    let n = ps.len() as int;
    let first = strip_carriage_return(a);
    let f = |l: Seq<char>| strip_carriage_return(l);
    assert(ps.take(n - 1) =~= seq![a] + q.take(q.len() - 1));
    assert(ps.take(n - 1).map_values(f) =~= seq![first] + q.take(q.len() - 1).map_values(f));
    assert(ps[n - 1] == q[q.len() - 1]);
    if q[q.len() - 1].len() == 0 {
        assert(lines(a + seq!['\n'] + b) =~= seq![first] + lines(b));
    } else {
        assert((seq![first] + q.take(q.len() - 1).map_values(f)).push(q[q.len() - 1]) =~= seq![first] + q.take(q.len()
            - 1).map_values(f).push(q[q.len() - 1]));
        assert(lines(a + seq!['\n'] + b) =~= seq![first] + lines(b));
    }
}

/// The characters of `s`.
pub fn str_chars(s: &str) -> (r: Vec<char>)
    ensures
        r@ == s@,
{
    let n: usize = s.unicode_len();
    let mut out: Vec<char> = Vec::new();
    let mut i: usize = 0;
    while i < n
        invariant
            n == s@.len(),
            i <= n,
            out@ == s@.take(i as int),
        decreases n - i,
    {
        out.push(s.get_char(i));
        assert(out@ =~= s@.take(i + 1));
        i = i + 1;
    }
    assert(s@.take(n as int) =~= s@);
    out
}

/// A `String` holding the characters `cs[from..]`.
pub fn string_from_chars(cs: &Vec<char>, from: usize) -> (r: String)
    requires
        from <= cs.len(),
    ensures
        r@ == cs@.skip(from as int),
{
    let mut out = String::new();
    let mut i: usize = from;
    while i < cs.len()
        invariant
            from <= i <= cs.len(),
            out@ == cs@.subrange(from as int, i as int),
        decreases cs.len() - i,
    {
        push_char(&mut out, cs[i]);
        assert(out@ =~= cs@.subrange(from as int, i + 1));
        i = i + 1;
    }
    assert(cs@.subrange(from as int, cs.len() as int) =~= cs@.skip(from as int));
    out
}

/// The view of a list of strings.
pub open spec fn strings_view(v: Seq<String>) -> Seq<Seq<char>> {
    v.map_values(|s: String| s@)
}

/// The words of `s` (`str::split_whitespace`).
pub fn split_words(s: &str) -> (r: Vec<String>)
    ensures
        strings_view(r@) == words(s@),
{
    let cs = str_chars(s);
    let mut out: Vec<String> = Vec::new();
    let mut i: usize = 0;
    while i < cs.len()
        invariant
            i <= cs.len(),
            cs@ == s@,
            strings_view(out@) == words(cs@.take(i as int)),
        decreases cs.len() - i,
    {
        let c = cs[i];
        let ghost prefix = cs@.take(i as int);
        assert(cs@.take(i + 1).drop_last() =~= prefix);
        assert(cs@.take(i + 1).last() == c);
        if is_white_space_char(c) {
        } else if i > 0 && !is_white_space_char(cs[i - 1]) {
            assert(prefix.last() == cs@[i - 1]);
            proof {
                lemma_words_nonempty(prefix);
            }
            let mut last = out.pop().unwrap();
            push_char(&mut last, c);
            out.push(last);
            assert(strings_view(out@) =~= words(cs@.take(i + 1)));
        } else {
            let mut w = String::new();
            push_char(&mut w, c);
            out.push(w);
            assert(strings_view(out@) =~= words(cs@.take(i + 1)));
        }
        i = i + 1;
    }
    assert(cs@.take(cs.len() as int) =~= cs@);
    out
}

/// The view of a list of character vectors.
pub open spec fn char_rows_view(v: Seq<Vec<char>>) -> Seq<Seq<char>> {
    v.map_values(|l: Vec<char>| l@)
}

/// The lines of `s` (`str::lines`), as character vectors.
pub fn split_lines(s: &str) -> (r: Vec<Vec<char>>)
    ensures
        char_rows_view(r@) == lines(s@),
{
    let cs = str_chars(s);
    let mut pieces: Vec<Vec<char>> = Vec::new();
    pieces.push(Vec::new());
    let mut i: usize = 0;
    assert(char_rows_view(pieces@) =~= newline_pieces(cs@.take(0)));
    while i < cs.len()
        invariant
            i <= cs.len(),
            cs@ == s@,
            char_rows_view(pieces@) == newline_pieces(cs@.take(i as int)),
        decreases cs.len() - i,
    {
        let c = cs[i];
        let ghost prefix = cs@.take(i as int);
        assert(cs@.take(i + 1).drop_last() =~= prefix);
        assert(cs@.take(i + 1).last() == c);
        proof {
            lemma_newline_pieces_nonempty(prefix);
        }
        if c == '\n' {
            pieces.push(Vec::new());
        } else {
            let mut last = pieces.pop().unwrap();
            last.push(c);
            pieces.push(last);
        }
        assert(char_rows_view(pieces@) =~= newline_pieces(cs@.take(i + 1)));
        i = i + 1;
    }
    assert(cs@.take(cs.len() as int) =~= cs@);
    proof {
        lemma_newline_pieces_nonempty(cs@);
    }
    let ghost ps = newline_pieces(cs@);
    let n: usize = pieces.len();
    let mut out: Vec<Vec<char>> = Vec::new();
    let mut k: usize = 0;
    while k + 1 < n
        invariant
            n == pieces.len(),
            n > 0,
            char_rows_view(pieces@) == ps,
            k < n,
            char_rows_view(out@) == ps.take(k as int).map_values(|l: Seq<char>| strip_carriage_return(l)),
        decreases n - k,
    {
        let mut line = pieces[k].clone();
        let len: usize = line.len();
        if len > 0 && line[len - 1] == '\r' {
            line.pop();
        }
        assert(line@ == strip_carriage_return(ps[k as int]));
        let ghost before = out@;
        out.push(line);
        assert(char_rows_view(out@) =~= char_rows_view(before).push(strip_carriage_return(ps[k as int])));
        assert(char_rows_view(out@) =~= ps.take(k + 1).map_values(|l: Seq<char>| strip_carriage_return(l)));
        k = k + 1;
    }
    if pieces[n - 1].len() > 0 {
        out.push(pieces[n - 1].clone());
        assert(char_rows_view(out@) =~= lines(s@));
    } else {
        assert(char_rows_view(out@) =~= lines(s@));
    }
    out
}

/// Decodes `bytes` as UTF-8 with `String::from_utf8`; the contract claims
/// that it succeeds exactly on valid UTF-8 (vstd's `valid_utf8`) and then
/// yields the decoded characters (vstd's `decode_utf8`).
#[verifier::external_body]
pub fn utf8_to_string(bytes: Vec<u8>) -> (r: Option<String>)
    ensures
        r is Some <==> vstd::utf8::valid_utf8(bytes@),
        r matches Some(s) ==> s@ == vstd::utf8::decode_utf8(bytes@),
{
    String::from_utf8(bytes).ok()
}

} // verus!
