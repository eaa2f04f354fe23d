use vstd::prelude::*;
use vstd::string::*;

verus! {

/// Characters that the drawtext syntax reads as syntax and that must carry a backslash.
pub open spec fn is_special(c: char) -> bool {
    c == '\\' || c == ':' || c == '(' || c == ')'
}

/// What one input character becomes in escaped text.
pub open spec fn escape_char(c: char) -> Seq<char> {
    if is_special(c) {
        seq!['\\', c]
    } else {
        seq![c]
    }
}

/// The escaped form of a whole text: each character escaped in turn.
pub open spec fn escaped(s: Seq<char>) -> Seq<char>
    decreases s.len(),
{
    if s.len() == 0 {
        Seq::<char>::empty()
    } else {
        escaped(s.drop_last()) + escape_char(s.last())
    }
}

/// Text in which every special character is immediately preceded by an escaping backslash
/// (read pairwise from the end), so that none stands unescaped.
pub open spec fn is_escaped_form(t: Seq<char>) -> bool
    decreases t.len(),
{
    if t.len() == 0 {
        true
    } else if is_special(t.last()) {
        t.len() >= 2 && t[t.len() - 2] == '\\' && is_escaped_form(t.subrange(0, t.len() - 2))
    } else {
        is_escaped_form(t.drop_last())
    }
}

/// Relies on String::push: it appends one character.
#[verifier::external_body]
pub(crate) fn push_char(s: &mut String, c: char)
    ensures
        final(s)@ == old(s)@.push(c),
{
    s.push(c)
}

/// Escapes backslash, colon and parentheses with a backslash for the drawtext filter.
pub fn escape_ffmpeg_drawtext_text(text: &str) -> (r: String)
    ensures
        r@ == escaped(text@),
{
    let n = text.unicode_len();
    let mut out = String::new();
    let mut i: usize = 0;
    while i < n
        invariant
            n == text@.len(),
            i <= n,
            out@ == escaped(text@.subrange(0, i as int)),
        decreases n - i,
    {
        let c = text.get_char(i);
        assert(text@.subrange(0, i + 1).drop_last() =~= text@.subrange(0, i as int));
        if c == '\\' || c == ':' || c == '(' || c == ')' {
            push_char(&mut out, '\\');
        }
        push_char(&mut out, c);
        assert(out@ =~= escaped(text@.subrange(0, i + 1)));
        i += 1;
    }
    assert(text@.subrange(0, n as int) =~= text@);
    out
}

/// Text free of special characters is left exactly as it is.
pub proof fn lemma_escape_keeps_safe_text(s: Seq<char>)
    requires
        forall|i: int| 0 <= i < s.len() ==> !is_special(#[trigger] s[i]),
    ensures
        escaped(s) == s,
    decreases s.len(),
{
    if s.len() > 0 {
        assert(forall|i: int|
            0 <= i < s.drop_last().len() ==> s.drop_last()[i] == s[i]);
        lemma_escape_keeps_safe_text(s.drop_last());
        assert(!is_special(s[s.len() - 1]));
        assert(escaped(s) =~= s);
    }
}

/// No special character of the escaped text stands without its backslash.
pub proof fn lemma_escaped_has_no_bare_special(s: Seq<char>)
    ensures
        is_escaped_form(escaped(s)),
    decreases s.len(),
{
    if s.len() > 0 {
        lemma_escaped_has_no_bare_special(s.drop_last());
        let p = escaped(s.drop_last());
        let t = escaped(s);
        let c = s.last();
        if is_special(c) {
            assert(t.subrange(0, t.len() - 2) =~= p);
        } else {
            assert(t.drop_last() =~= p);
        }
    }
}

/// Two texts with the same escaped form are the same text.
pub proof fn lemma_escape_injective(a: Seq<char>, b: Seq<char>)
    requires
        escaped(a) == escaped(b),
    ensures
        a == b,
    decreases a.len(),
{
    if a.len() == 0 {
        if b.len() > 0 {
            assert(escaped(b).len() > 0);
        }
        assert(a =~= b);
    } else {
        if b.len() == 0 {
            assert(escaped(a).len() > 0);
        }
        let ea = escaped(a);
        assert(ea.last() == a.last());
        assert(escaped(b).last() == b.last());
        let k = escape_char(a.last()).len();
        assert(escaped(a.drop_last()) =~= ea.subrange(0, ea.len() - k));
        assert(escaped(b.drop_last()) =~= ea.subrange(0, ea.len() - k));
        lemma_escape_injective(a.drop_last(), b.drop_last());
        assert(a =~= a.drop_last().push(a.last()));
        assert(b =~= b.drop_last().push(b.last()));
    }
}

} // verus!
