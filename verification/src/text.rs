//! Character-level helpers on strings.

use vstd::prelude::*;

verus! {

/// The characters of `s`, one by one.
pub fn chars_of(s: &str) -> (v: Vec<char>)
    ensures
        v@ == s@,
{
    let mut v: Vec<char> = Vec::new();
    for c in it: s.chars()
        invariant
            v@ == it.seq().take(it.index()),
            it.seq() == s@,
    {
        v.push(c);
    }
    v
}

/// Appends one character to `s` (`String::push`).
#[verifier::external_body]
pub(crate) fn push_char(s: &mut String, c: char)
    ensures
        final(s)@ == old(s)@.push(c),
{
    s.push(c);
}

/// Whether `a` and `b` hold the same characters.
pub fn str_eq(a: &str, b: &str) -> (r: bool)
    ensures
        r == (a@ == b@),
{
    let av = chars_of(a);
    let bv = chars_of(b);
    if av.len() != bv.len() {
        return false;
    }
    let mut i: usize = 0;
    while i < av.len()
        invariant
            av@ == a@,
            bv@ == b@,
            av.len() == bv.len(),
            i <= av.len(),
            forall|j: int| 0 <= j < i ==> av@[j] == bv@[j],
        decreases av.len() - i,
    {
        if av[i] != bv[i] {
            return false;
        }
        i = i + 1;
    }
    assert(av@ =~= bv@);
    true
}


/// The characters that the drawtext filter reads as syntax: `\`, `:`, `%`.
pub open spec fn is_drawtext_special(c: char) -> bool {
    c == '\\' || c == ':' || c == '%'
}

/// One character as it stands in an escaped drawtext value.
pub open spec fn escape_char(c: char) -> Seq<char> {
    if is_drawtext_special(c) {
        seq!['\\', c]
    } else {
        seq![c]
    }
}

/// `s` with a backslash before every `\`, `:` and `%`.
pub open spec fn drawtext_escaped(s: Seq<char>) -> Seq<char>
    decreases s.len(),
{
    if s.len() == 0 {
        seq![]
    } else {
        drawtext_escaped(s.drop_last()) + escape_char(s.last())
    }
}

/// How the drawtext filter reads an escaped value back: a backslash takes
/// the character after it literally.
pub open spec fn drawtext_unescaped(t: Seq<char>) -> Seq<char>
    decreases t.len(),
{
    if t.len() == 0 {
        seq![]
    } else if t[0] == '\\' && t.len() >= 2 {
        seq![t[1]] + drawtext_unescaped(t.subrange(2, t.len() as int))
    } else {
        seq![t[0]] + drawtext_unescaped(t.subrange(1, t.len() as int))
    }
}

/// Escapes `s` for the value of a drawtext `text=` option: `\` becomes
/// `\\`, `:` becomes `\:` and `%` becomes `\%`.
pub fn escape_drawtext(s: &str) -> (r: String)
    ensures
        r@ == drawtext_escaped(s@),
{
    let v = chars_of(s);
    let mut r = String::new();
    let mut i: usize = 0;
    while i < v.len()
        invariant
            v@ == s@,
            i <= v.len(),
            r@ == drawtext_escaped(v@.take(i as int)),
        decreases v.len() - i,
    {
        let c = v[i];
        let ghost before = r@;
        if c == '\\' || c == ':' || c == '%' {
            push_char(&mut r, '\\');
        }
        push_char(&mut r, c);
        assert(v@.take(i + 1).drop_last() =~= v@.take(i as int));
        assert(r@ =~= before + escape_char(c));
        i = i + 1;
    }
    assert(v@.take(v.len() as int) =~= v@);
    r
}

/// Reading an escaped prefix followed by more text reads the prefix back.
proof fn lemma_unescape_concat(s: Seq<char>, rest: Seq<char>)
    ensures
        drawtext_unescaped(drawtext_escaped(s) + rest) == s + drawtext_unescaped(rest),
    decreases s.len(),
{
    if s.len() == 0 {
        assert(drawtext_escaped(s) + rest =~= rest);
        assert(s + drawtext_unescaped(rest) =~= drawtext_unescaped(rest));
    } else {
        let c = s[0];
        let tail = s.subrange(1, s.len() as int);
        lemma_escaped_first(s);
        lemma_unescape_concat(tail, rest);
        let t = drawtext_escaped(s) + rest;
        assert(t =~= escape_char(c) + (drawtext_escaped(tail) + rest));
        if is_drawtext_special(c) {
            assert(t[0] == '\\' && t.len() >= 2);
            assert(t.subrange(2, t.len() as int) =~= drawtext_escaped(tail) + rest);
        } else {
            assert(t.subrange(1, t.len() as int) =~= drawtext_escaped(tail) + rest);
        }
        assert(s =~= seq![c] + tail);
        assert(seq![c] + (tail + drawtext_unescaped(rest)) =~= s + drawtext_unescaped(rest));
    }
}

/// Escaping splits at the first character.
proof fn lemma_escaped_first(s: Seq<char>)
    requires
        s.len() > 0,
    ensures
        drawtext_escaped(s) == escape_char(s[0]) + drawtext_escaped(s.subrange(1, s.len() as int)),
    decreases s.len(),
{
    let tail = s.subrange(1, s.len() as int);
    if s.len() == 1 {
        assert(s.drop_last() =~= seq![]);
        assert(tail =~= seq![]);
        assert(drawtext_escaped(s.drop_last()) =~= Seq::<char>::empty());
        assert(drawtext_escaped(tail) =~= Seq::<char>::empty());
        assert(s.last() == s[0]);
        assert(drawtext_escaped(s) =~= escape_char(s[0]) + drawtext_escaped(tail));
    } else {
        lemma_escaped_first(s.drop_last());
        assert(s.drop_last().subrange(1, s.drop_last().len() as int) =~= tail.drop_last());
        assert(s.drop_last()[0] == s[0]);
        assert(tail.last() == s.last());
        assert(drawtext_escaped(s) =~= escape_char(s[0]) + drawtext_escaped(tail));
    }
}

/// The drawtext filter reads back exactly the text that was escaped, so
/// no character of the text is taken for filter syntax.
pub proof fn lemma_escape_drawtext_roundtrip(s: Seq<char>)
    ensures
        drawtext_unescaped(drawtext_escaped(s)) == s,
{
    lemma_unescape_concat(s, seq![]);
    assert(drawtext_escaped(s) + seq![] =~= drawtext_escaped(s));
    assert(s + drawtext_unescaped(seq![]) =~= s);
}

/// Two texts with the same escaped form are the same text.
pub proof fn lemma_escape_drawtext_injective(a: Seq<char>, b: Seq<char>)
    requires
        drawtext_escaped(a) == drawtext_escaped(b),
    ensures
        a == b,
{
    lemma_escape_drawtext_roundtrip(a);
    lemma_escape_drawtext_roundtrip(b);
}

} // verus!
