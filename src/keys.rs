use vstd::prelude::*;
use vstd::seq_lib::lemma_concat_associative;
use crate::engine::Key;

verus! {

/// Key text that cannot be read: an unterminated `<` or an unknown name.
#[derive(Clone, Copy, Debug, PartialEq, Eq, Structural)]
pub struct MalformedToken {
    /// Index of the `<` that opens the bad token.
    pub at: usize,
}

/// The key written `<name>` in key text. A `S-`, `C-` or `A-` prefix before
/// a single character means Shift (already part of the character), Control
/// or Alt.
pub open spec fn named(name: Seq<char>) -> Option<Key> {
    if name == seq!['E', 's', 'c'] {
        Some(Key::Esc)
    } else if name == seq!['l', 't'] {
        Some(Key::Char('<'))
    } else if name == seq!['C', 'R'] || name == seq!['E', 'n', 't', 'e', 'r'] {
        Some(Key::Enter)
    } else if name == seq!['L', 'e', 'f', 't'] {
        Some(Key::Left)
    } else if name == seq!['R', 'i', 'g', 'h', 't'] {
        Some(Key::Right)
    } else if name == seq!['U', 'p'] {
        Some(Key::Up)
    } else if name == seq!['D', 'o', 'w', 'n'] {
        Some(Key::Down)
    } else if name.len() == 3 && name[1] == '-' && name[0] == 'S' {
        Some(Key::Char(name[2]))
    } else if name.len() == 3 && name[1] == '-' && name[0] == 'C' {
        Some(Key::Ctrl(name[2]))
    } else if name.len() == 3 && name[1] == '-' && name[0] == 'A' {
        Some(Key::Alt(name[2]))
    } else {
        None
    }
}

/// Index of the first `>` at or after `j`, or the length if there is none.
pub open spec fn close_of(s: Seq<char>, j: int) -> int
    decreases s.len() - j,
{
    if j >= s.len() {
        s.len() as int
    } else if s[j] == '>' {
        j
    } else {
        close_of(s, j + 1)
    }
}

/// The keys written by `s` from index `i` on: a bare character stands for
/// itself, `<name>` for a named key; `Err(p)` where the token at `p` is bad.
pub open spec fn parse_from(s: Seq<char>, i: int) -> Result<Seq<Key>, MalformedToken>
    decreases s.len() - i,
{
    if i < 0 || i >= s.len() {
        Ok(Seq::empty())
    } else if s[i] != '<' {
        match parse_from(s, i + 1) {
            Ok(rest) => Ok(seq![Key::Char(s[i])] + rest),
            Err(e) => Err(e),
        }
    } else {
        let j = close_of(s, i + 1);
        if j >= s.len() || j <= i {
            Err(MalformedToken { at: i as usize })
        } else {
            match named(s.subrange(i + 1, j)) {
                None => Err(MalformedToken { at: i as usize }),
                Some(k) => match parse_from(s, j + 1) {
                    Ok(rest) => Ok(seq![k] + rest),
                    Err(e) => Err(e),
                },
            }
        }
    }
}

/// Whether `s[lo..hi]` spells `w`.
pub(crate) fn spells(s: &Vec<char>, lo: usize, hi: usize, w: &Vec<char>) -> (r: bool)
    requires
        lo <= hi <= s@.len(),
    ensures
        r == (s@.subrange(lo as int, hi as int) == w@),
{
    if hi - lo != w.len() {
        return false;
    }
    let mut k: usize = 0;
    while k < w.len()
        invariant
            hi - lo == w@.len(),
            lo <= hi <= s@.len(),
            k <= w@.len(),
            forall|m: int| 0 <= m < k ==> s@[lo + m] == w@[m],
        decreases w@.len() - k,
    {
        if s[lo + k] != w[k] {
            assert(s@.subrange(lo as int, hi as int)[k as int] != w@[k as int]);
            return false;
        }
        k = k + 1;
    }
    assert(s@.subrange(lo as int, hi as int) =~= w@);
    true
}

/// The key named by `s[lo..hi]`, if the name is known.
fn named_key(s: &Vec<char>, lo: usize, hi: usize) -> (r: Option<Key>)
    requires
        lo <= hi <= s@.len(),
    ensures
        r == named(s@.subrange(lo as int, hi as int)),
{
    let ghost n = s@.subrange(lo as int, hi as int);
    let lt = vec!['l', 't'];
    assert(lt@ =~= seq!['l', 't']);
    if spells(s, lo, hi, &vec!['E', 's', 'c']) {
        Some(Key::Esc)
    } else if spells(s, lo, hi, &lt) {
        Some(Key::Char('<'))
    } else if spells(s, lo, hi, &vec!['C', 'R']) || spells(s, lo, hi, &vec!['E', 'n', 't', 'e', 'r']) {
        Some(Key::Enter)
    } else if spells(s, lo, hi, &vec!['L', 'e', 'f', 't']) {
        Some(Key::Left)
    } else if spells(s, lo, hi, &vec!['R', 'i', 'g', 'h', 't']) {
        Some(Key::Right)
    } else if spells(s, lo, hi, &vec!['U', 'p']) {
        Some(Key::Up)
    } else if spells(s, lo, hi, &vec!['D', 'o', 'w', 'n']) {
        Some(Key::Down)
    } else if hi - lo == 3 && s[lo + 1] == '-' {
        assert(n[1] == s@[lo + 1] && n[0] == s@[lo as int] && n[2] == s@[lo + 2]);
        let c = s[lo + 2];
        let m = s[lo];
        if m == 'S' {
            Some(Key::Char(c))
        } else if m == 'C' {
            Some(Key::Ctrl(c))
        } else if m == 'A' {
            Some(Key::Alt(c))
        } else {
            None
        }
    } else {
        proof {
            if n.len() == 3 {
                assert(n[1] == s@[lo + 1]);
            }
        }
        None
    }
}

/// `r` with `acc` put in front of its keys.
pub open spec fn prepend(acc: Seq<Key>, r: Result<Seq<Key>, MalformedToken>) -> Result<
    Seq<Key>,
    MalformedToken,
> {
    match r {
        Ok(rest) => Ok(acc + rest),
        Err(e) => Err(e),
    }
}

proof fn lemma_parse_push(s: Seq<char>, i: int, j: int, acc: Seq<Key>, k: Key)
    requires
        0 <= i < j <= s.len(),
        parse_from(s, i) == prepend(seq![k], parse_from(s, j)),
    ensures
        prepend(acc, parse_from(s, i)) == prepend(acc.push(k), parse_from(s, j)),
{
    match parse_from(s, j) {
        Ok(rest) => {
            assert(acc.push(k) =~= acc + seq![k]);
            lemma_concat_associative(acc, seq![k], rest);
        },
        Err(_) => {},
    }
}

proof fn lemma_parse_char(s: Seq<char>, i: int)
    requires
        0 <= i < s.len(),
        s[i] != '<',
    ensures
        parse_from(s, i) == prepend(seq![Key::Char(s[i])], parse_from(s, i + 1)),
{
}

proof fn lemma_parse_named(s: Seq<char>, i: int, j: int, k: Key)
    requires
        0 <= i < j < s.len(),
        s[i] == '<',
        close_of(s, i + 1) == j,
        named(s.subrange(i + 1, j)) == Some(k),
    ensures
        parse_from(s, i) == prepend(seq![k], parse_from(s, j + 1)),
{
}

proof fn lemma_parse_bad(s: Seq<char>, i: int, j: int)
    requires
        0 <= i < j <= s.len(),
        s[i] == '<',
        close_of(s, i + 1) == j,
        j == s.len() || named(s.subrange(i + 1, j)).is_none(),
    ensures
        parse_from(s, i) == Err::<Seq<Key>, MalformedToken>(MalformedToken { at: i as usize }),
{
}

/// Reads key text such as `<Esc>hi` into keys.
pub fn parse_keys(text: &Vec<char>) -> (r: Result<Vec<Key>, MalformedToken>)
    ensures
        match r {
            Ok(v) => parse_from(text@, 0) == Ok::<Seq<Key>, MalformedToken>(v@),
            Err(e) => parse_from(text@, 0) == Err::<Seq<Key>, MalformedToken>(e),
        },
{
    let mut out: Vec<Key> = Vec::new();
    let mut i: usize = 0;
    assert(prepend(out@, parse_from(text@, 0)) == parse_from(text@, 0)) by {
        match parse_from(text@, 0) {
            Ok(rest) => assert(Seq::<Key>::empty() + rest =~= rest),
            Err(_) => {},
        }
    }
    while i < text.len()
        invariant
            i <= text@.len(),
            parse_from(text@, 0) == prepend(out@, parse_from(text@, i as int)),
        decreases text@.len() - i,
    {
        if text[i] != '<' {
            proof {
                lemma_parse_char(text@, i as int);
                lemma_parse_push(text@, i as int, i + 1, out@, Key::Char(text@[i as int]));
            }
            out.push(Key::Char(text[i]));
            i = i + 1;
        } else {
            let mut j: usize = i + 1;
            while j < text.len() && text[j] != '>'
                invariant
                    i < j <= text@.len(),
                    close_of(text@, i + 1) == close_of(text@, j as int),
                decreases text@.len() - j,
            {
                j = j + 1;
            }
            assert(close_of(text@, j as int) == j as int);
            if j >= text.len() {
                proof { lemma_parse_bad(text@, i as int, j as int); }
                return Err(MalformedToken { at: i });
            }
            match named_key(text, i + 1, j) {
                None => {
                    proof { lemma_parse_bad(text@, i as int, j as int); }
                    return Err(MalformedToken { at: i });
                },
                Some(k) => {
                    proof {
                        lemma_parse_named(text@, i as int, j as int, k);
                        lemma_parse_push(text@, i as int, j + 1, out@, k);
                    }
                    out.push(k);
                    i = j + 1;
                },
            }
        }
    }
    assert(out@ + Seq::<Key>::empty() =~= out@);
    Ok(out)
}

/// Whether `c` separates words of a command line.
pub open spec fn is_space(c: char) -> bool {
    c == ' ' || c == '\t'
}

/// `cur` as a list of at most one word.
pub open spec fn flush(cur: Seq<char>) -> Seq<Seq<char>> {
    if cur.len() > 0 {
        seq![cur]
    } else {
        Seq::empty()
    }
}

/// The words of `s` from index `i` on, with `cur` the word read so far.
pub open spec fn words_from(s: Seq<char>, i: int, cur: Seq<char>) -> Seq<Seq<char>>
    decreases s.len() - i,
{
    if i < 0 || i >= s.len() {
        flush(cur)
    } else if is_space(s[i]) {
        flush(cur) + words_from(s, i + 1, Seq::empty())
    } else {
        words_from(s, i + 1, cur.push(s[i]))
    }
}

/// The whitespace-separated words of `s`.
pub open spec fn words(s: Seq<char>) -> Seq<Seq<char>> {
    words_from(s, 0, Seq::empty())
}

proof fn lemma_words_space(s: Seq<char>, i: int, cur: Seq<char>, acc: Seq<Seq<char>>)
    requires
        0 <= i < s.len(),
        is_space(s[i]),
    ensures
        acc + words_from(s, i, cur) == (acc + flush(cur)) + words_from(s, i + 1, Seq::empty()),
{
    lemma_concat_associative(acc, flush(cur), words_from(s, i + 1, Seq::empty()));
}

/// Splits a command line into its whitespace-separated words.
pub fn split_words(text: &Vec<char>) -> (r: Vec<Vec<char>>)
    ensures
        r@.len() == words(text@).len(),
        forall|k: int| 0 <= k < r@.len() ==> #[trigger] r@[k]@ == words(text@)[k],
{
    let mut out: Vec<Vec<char>> = Vec::new();
    let ghost acc: Seq<Seq<char>> = Seq::empty();
    let mut cur: Vec<char> = Vec::new();
    let mut i: usize = 0;
    assert(acc + words_from(text@, 0, cur@) =~= words(text@));
    while i < text.len()
        invariant
            i <= text@.len(),
            acc + words_from(text@, i as int, cur@) == words(text@),
            out@.len() == acc.len(),
            forall|k: int| 0 <= k < out@.len() ==> #[trigger] out@[k]@ == acc[k],
        decreases text@.len() - i,
    {
        let c = text[i];
        if c == ' ' || c == '\t' {
            proof { lemma_words_space(text@, i as int, cur@, acc); }
            if cur.len() > 0 {
                proof { acc = acc.push(cur@); }
                assert(acc =~= (acc.drop_last() + flush(cur@)));
                out.push(cur);
                cur = Vec::new();
            } else {
                assert(acc + flush(cur@) =~= acc);
                cur = Vec::new();
            }
        } else {
            cur.push(c);
        }
        i = i + 1;
    }
    if cur.len() > 0 {
        proof { acc = acc.push(cur@); }
        assert(acc =~= acc.drop_last() + flush(cur@));
        out.push(cur);
    } else {
        assert(acc.add(flush(cur@)) =~= acc);
    }
    assert(acc =~= words(text@));
    out
}

/// Key text for one key: a character stands for itself (`<` is written
/// `<lt>`), other keys by their bracketed names.
pub open spec fn render_spec(k: Key) -> Seq<char> {
    match k {
        Key::Char(c) => if c == '<' {
            seq!['<', 'l', 't', '>']
        } else {
            seq![c]
        },
        Key::Ctrl(c) => seq!['<', 'C', '-', c, '>'],
        Key::Alt(c) => seq!['<', 'A', '-', c, '>'],
        Key::Esc => seq!['<', 'E', 's', 'c', '>'],
        Key::Enter => seq!['<', 'C', 'R', '>'],
        Key::Left => seq!['<', 'L', 'e', 'f', 't', '>'],
        Key::Right => seq!['<', 'R', 'i', 'g', 'h', 't', '>'],
        Key::Up => seq!['<', 'U', 'p', '>'],
        Key::Down => seq!['<', 'D', 'o', 'w', 'n', '>'],
    }
}

/// Writes one key as key text, for display.
pub fn render(k: Key) -> (r: Vec<char>)
    ensures
        r@ == render_spec(k),
{
    let r = match k {
        Key::Char(c) => if c == '<' {
            vec!['<', 'l', 't', '>']
        } else {
            vec![c]
        },
        Key::Ctrl(c) => vec!['<', 'C', '-', c, '>'],
        Key::Alt(c) => vec!['<', 'A', '-', c, '>'],
        Key::Esc => vec!['<', 'E', 's', 'c', '>'],
        Key::Enter => vec!['<', 'C', 'R', '>'],
        Key::Left => vec!['<', 'L', 'e', 'f', 't', '>'],
        Key::Right => vec!['<', 'R', 'i', 'g', 'h', 't', '>'],
        Key::Up => vec!['<', 'U', 'p', '>'],
        Key::Down => vec!['<', 'D', 'o', 'w', 'n', '>'],
    };
    assert(r@ =~= render_spec(k));
    r
}

/// Reading back the text that `render` writes for a key gives that key.
/// A Control or Alt `>` is the exception: its text closes early.
pub proof fn lemma_render_parse(k: Key)
    requires
        k != Key::Ctrl('>'),
        k != Key::Alt('>'),
    ensures
        parse_from(render_spec(k), 0) == Ok::<Seq<Key>, MalformedToken>(seq![k]),
{
    let s = render_spec(k);
    reveal_with_fuel(close_of, 8);
    reveal_with_fuel(parse_from, 2);
    let n = s.len() as int;
    if s[0] == '<' {
        assert(close_of(s, 1) == n - 1);
        assert(s.subrange(1, n - 1) =~= match k {
            Key::Char(_) => seq!['l', 't'],
            Key::Ctrl(c) => seq!['C', '-', c],
            Key::Alt(c) => seq!['A', '-', c],
            Key::Esc => seq!['E', 's', 'c'],
            Key::Enter => seq!['C', 'R'],
            Key::Left => seq!['L', 'e', 'f', 't'],
            Key::Right => seq!['R', 'i', 'g', 'h', 't'],
            Key::Up => seq!['U', 'p'],
            Key::Down => seq!['D', 'o', 'w', 'n'],
        });
        assert(parse_from(s, n) == Ok::<Seq<Key>, MalformedToken>(Seq::empty()));
        assert(seq![k] + Seq::<Key>::empty() =~= seq![k]);
    } else {
        assert(parse_from(s, 1) == Ok::<Seq<Key>, MalformedToken>(Seq::empty()));
        assert(seq![k] + Seq::<Key>::empty() =~= seq![k]);
    }
}

} // verus!
