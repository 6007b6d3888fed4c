//! Text operations on the characters of strings: lexicographic order, ASCII
//! case-insensitive comparison and file-name extensions.
use vstd::prelude::*;
use vstd::string::*;

verus! {

/// `a` comes strictly before `b` in lexicographic order of code points: at the
/// first position where they differ `a` has the smaller character, or `a` is a
/// proper prefix of `b`. For UTF-8 strings this is the order of their bytes,
/// the order `str` compares in.
pub open spec fn lex_lt(a: Seq<char>, b: Seq<char>) -> bool
    decreases a.len(),
{
    if a.len() == 0 {
        b.len() > 0
    } else if b.len() == 0 {
        false
    } else if a[0] != b[0] {
        (a[0] as int) < (b[0] as int)
    } else {
        lex_lt(a.drop_first(), b.drop_first())
    }
}

/// `a` comes before `b` or equals it.
pub open spec fn lex_le(a: Seq<char>, b: Seq<char>) -> bool {
    lex_lt(a, b) || a == b
}

/// No text comes before itself.
pub proof fn lemma_lex_lt_irreflexive(a: Seq<char>)
    ensures
        !lex_lt(a, a),
    decreases a.len(),
{
    if a.len() > 0 {
        lemma_lex_lt_irreflexive(a.drop_first());
    }
}

/// Of two different texts one comes before the other, and never both.
pub proof fn lemma_lex_lt_total(a: Seq<char>, b: Seq<char>)
    ensures
        a != b ==> (lex_lt(a, b) || lex_lt(b, a)),
        !(lex_lt(a, b) && lex_lt(b, a)),
    decreases a.len(),
{
    if a.len() > 0 && b.len() > 0 && a[0] == b[0] {
        lemma_lex_lt_total(a.drop_first(), b.drop_first());
        if a != b {
            assert(a.drop_first() != b.drop_first()) by {
                if a.drop_first() == b.drop_first() {
                    assert(a =~= seq![a[0]] + a.drop_first());
                    assert(b =~= seq![b[0]] + b.drop_first());
                }
            }
        }
    } else if a.len() == 0 && b.len() == 0 {
        assert(a =~= b);
    }
}

/// The order is transitive.
pub proof fn lemma_lex_lt_transitive(a: Seq<char>, b: Seq<char>, c: Seq<char>)
    requires
        lex_lt(a, b),
        lex_lt(b, c),
    ensures
        lex_lt(a, c),
    decreases a.len(),
{
    if a.len() > 0 && b.len() > 0 && c.len() > 0 && a[0] == b[0] && b[0] == c[0] {
        lemma_lex_lt_transitive(a.drop_first(), b.drop_first(), c.drop_first());
    }
}

/// Comparing texts that agree on their first `i` characters is comparing what follows.
proof fn lemma_lex_lt_skip(a: Seq<char>, b: Seq<char>, i: int)
    requires
        0 <= i <= a.len(),
        i <= b.len(),
        a.subrange(0, i) == b.subrange(0, i),
    ensures
        lex_lt(a, b) == lex_lt(a.skip(i), b.skip(i)),
    decreases i,
{
    if i > 0 {
        assert(a[0] == a.subrange(0, i)[0]);
        assert(b[0] == b.subrange(0, i)[0]);
        assert(a.drop_first().subrange(0, i - 1) =~= a.subrange(0, i).drop_first());
        assert(b.drop_first().subrange(0, i - 1) =~= b.subrange(0, i).drop_first());
        lemma_lex_lt_skip(a.drop_first(), b.drop_first(), i - 1);
        assert(a.drop_first().skip(i - 1) =~= a.skip(i));
        assert(b.drop_first().skip(i - 1) =~= b.skip(i));
    } else {
        assert(a.skip(0) =~= a);
        assert(b.skip(0) =~= b);
    }
}


/// Appending one character to each of two texts of the same length orders them
/// by the texts, and by the appended characters when the texts are equal.
pub proof fn lemma_lex_lt_push(s: Seq<char>, t: Seq<char>, x: char, y: char)
    requires
        s.len() == t.len(),
    ensures
        lex_lt(s.push(x), t.push(y)) == (lex_lt(s, t) || (s == t && (x as int) < (y as int))),
    decreases s.len(),
{
    if s.len() == 0 {
        assert(s =~= t);
        assert(s.push(x).drop_first() =~= Seq::<char>::empty());
        assert(t.push(y).drop_first() =~= Seq::<char>::empty());
        lemma_lex_lt_irreflexive(Seq::<char>::empty());
    } else {
        assert(s.push(x)[0] == s[0]);
        assert(t.push(y)[0] == t[0]);
        assert(s.push(x).drop_first() =~= s.drop_first().push(x));
        assert(t.push(y).drop_first() =~= t.drop_first().push(y));
        lemma_lex_lt_push(s.drop_first(), t.drop_first(), x, y);
        if s[0] == t[0] {
            if s.drop_first() == t.drop_first() {
                assert(s =~= t) by {
                    assert(s =~= seq![s[0]] + s.drop_first());
                    assert(t =~= seq![t[0]] + t.drop_first());
                }
            }
        }
    }
}

/// A common prefix does not change the order of two texts.
pub proof fn lemma_lex_lt_common_prefix(p: Seq<char>, s: Seq<char>, t: Seq<char>)
    ensures
        lex_lt(p + s, p + t) == lex_lt(s, t),
    decreases p.len(),
{
    if p.len() > 0 {
        assert((p + s)[0] == p[0]);
        assert((p + t)[0] == p[0]);
        assert((p + s).drop_first() =~= p.drop_first() + s);
        assert((p + t).drop_first() =~= p.drop_first() + t);
        lemma_lex_lt_common_prefix(p.drop_first(), s, t);
    } else {
        assert(p + s =~= s);
        assert(p + t =~= t);
    }
}

/// Two texts of the same length keep their order whatever follows them.
pub proof fn lemma_lex_lt_extend(s: Seq<char>, t: Seq<char>, u: Seq<char>, w: Seq<char>)
    requires
        s.len() == t.len(),
        lex_lt(s, t),
    ensures
        lex_lt(s + u, t + w),
    decreases s.len(),
{
    assert(s.len() > 0);
    assert((s + u)[0] == s[0]);
    assert((t + w)[0] == t[0]);
    if s[0] == t[0] {
        assert((s + u).drop_first() =~= s.drop_first() + u);
        assert((t + w).drop_first() =~= t.drop_first() + w);
        lemma_lex_lt_extend(s.drop_first(), t.drop_first(), u, w);
    }
}

/// Whether `a` comes strictly before `b`.
pub fn str_lt(a: &str, b: &str) -> (lt: bool)
    ensures
        lt == lex_lt(a@, b@),
{
    let la = a.unicode_len();
    let lb = b.unicode_len();
    let mut i: usize = 0;
    while i < la && i < lb
        invariant
            la == a@.len(),
            lb == b@.len(),
            i <= la,
            i <= lb,
            a@.subrange(0, i as int) == b@.subrange(0, i as int),
        decreases la - i,
    {
        let ca = a.get_char(i);
        let cb = b.get_char(i);
        if ca != cb {
            proof {
                lemma_lex_lt_skip(a@, b@, i as int);
                assert(a@.skip(i as int)[0] == ca);
                assert(b@.skip(i as int)[0] == cb);
            }
            return (ca as u32) < (cb as u32);
        }
        proof {
            assert(a@.subrange(0, i + 1) =~= a@.subrange(0, i as int).push(ca));
            assert(b@.subrange(0, i + 1) =~= b@.subrange(0, i as int).push(cb));
        }
        i = i + 1;
    }
    proof {
        lemma_lex_lt_skip(a@, b@, i as int);
    }
    la == i && i < lb
}

/// The ASCII lowercase of `c`: uppercase ASCII letters become lowercase, every
/// other character stays.
pub open spec fn ascii_lower(c: char) -> int {
    if 'A' as int <= c as int <= 'Z' as int {
        c as int + 32
    } else {
        c as int
    }
}

/// `a` and `b` are equal when ASCII letters are compared without case.
pub open spec fn eq_ignore_ascii_case(a: Seq<char>, b: Seq<char>) -> bool {
    &&& a.len() == b.len()
    &&& forall|i: int| 0 <= i < a.len() ==> #[trigger] ascii_lower(a[i]) == ascii_lower(b[i])
}

fn lower_code(c: char) -> (code: u32)
    ensures
        code == ascii_lower(c),
{
    let code = c as u32;
    if 65 <= code && code <= 90 {
        code + 32
    } else {
        code
    }
}

/// Whether `a` and `b` are equal when ASCII letters are compared without case.
pub fn str_eq_ignore_ascii_case(a: &str, b: &str) -> (eq: bool)
    ensures
        eq == eq_ignore_ascii_case(a@, b@),
{
    let la = a.unicode_len();
    let lb = b.unicode_len();
    if la != lb {
        return false;
    }
    let mut i: usize = 0;
    while i < la
        invariant
            la == a@.len(),
            lb == b@.len(),
            la == lb,
            i <= la,
            forall|j: int| 0 <= j < i ==> #[trigger] ascii_lower(a@[j]) == ascii_lower(b@[j]),
        decreases la - i,
    {
        if lower_code(a.get_char(i)) != lower_code(b.get_char(i)) {
            return false;
        }
        i = i + 1;
    }
    true
}

/// The position of the last `c` in `s`, or -1 when `s` has none.
pub open spec fn last_index_of(s: Seq<char>, c: char) -> int
    decreases s.len(),
{
    if s.len() == 0 {
        -1
    } else if s.last() == c {
        s.len() - 1
    } else {
        last_index_of(s.drop_last(), c)
    }
}

/// The extension of file name `name` as `Path::extension` gives it: the text
/// after the last `.`, unless the name has no `.`, its only `.` is its first
/// character, or it is `..`.
pub open spec fn file_extension(name: Seq<char>) -> Option<Seq<char>> {
    let dot = last_index_of(name, '.');
    if name == seq!['.', '.'] || dot <= 0 {
        None
    } else {
        Some(name.subrange(dot + 1, name.len() as int))
    }
}

proof fn lemma_last_index_of_prefix(s: Seq<char>, c: char, k: int)
    requires
        0 <= k <= s.len(),
        forall|j: int| k <= j < s.len() ==> s[j] != c,
    ensures
        last_index_of(s, c) == last_index_of(s.subrange(0, k), c),
    decreases s.len() - k,
{
    if k < s.len() {
        assert(s.drop_last() == s.subrange(0, s.len() - 1));
        assert(s.drop_last().subrange(0, k) =~= s.subrange(0, k));
        lemma_last_index_of_prefix(s.drop_last(), c, k);
    } else {
        assert(s.subrange(0, k) =~= s);
    }
}

/// The extension of file name `name`, if it has one.
pub fn extension_of(name: &str) -> (ext: Option<&str>)
    ensures
        match file_extension(name@) {
            Some(e) => ext matches Some(x) && x@ == e,
            None => ext is None,
        },
{
    let len = name.unicode_len();
    let mut k: usize = len;
    while k > 0 && name.get_char(k - 1) != '.'
        invariant
            len == name@.len(),
            k <= len,
            forall|j: int| k <= j < len ==> name@[j] != '.',
        decreases k,
    {
        k = k - 1;
    }
    proof {
        lemma_last_index_of_prefix(name@, '.', k as int);
        if k > 0 {
            assert(name@.subrange(0, k as int).last() == '.');
        } else {
            assert(name@.subrange(0, 0) =~= Seq::<char>::empty());
        }
    }
    if len == 2 && name.get_char(0) == '.' && name.get_char(1) == '.' {
        proof {
            assert(name@ =~= seq!['.', '.']);
        }
        return None;
    }
    proof {
        if name@ == seq!['.', '.'] {
            assert(name@[0] == '.' && name@[1] == '.');
        }
    }
    if k <= 1 {
        None
    } else {
        Some(name.substring_char(k, len))
    }
}

/// Whether `c` is an ASCII letter.
pub open spec fn is_ascii_letter(c: char) -> bool {
    ('A' as int <= c as int <= 'Z' as int) || ('a' as int <= c as int <= 'z' as int)
}

/// Two characters are equal without ASCII case exactly when they are equal, or
/// are the upper- and lowercase forms of one ASCII letter.
pub proof fn lemma_ascii_lower_folds_case(x: char, y: char)
    ensures
        (ascii_lower(x) == ascii_lower(y)) == (x == y || (is_ascii_letter(x) && is_ascii_letter(y)
            && (x as int - y as int == 32 || y as int - x as int == 32))),
{
}

/// A character that is not an ASCII letter equals, without ASCII case, only itself.
pub proof fn lemma_ascii_lower_non_letter(x: char, y: char)
    requires
        !is_ascii_letter(y),
        ascii_lower(x) == ascii_lower(y),
    ensures
        x == y,
{
    lemma_ascii_lower_folds_case(x, y);
}

/// `a` and `b` are equal character by character without ASCII case.
pub open spec fn same_ignoring_ascii_case(a: Seq<char>, b: Seq<char>) -> bool {
    &&& a.len() == b.len()
    &&& forall|i: int| 0 <= i < a.len() ==> #[trigger] ascii_lower(a[i]) == ascii_lower(b[i])
}

/// Texts equal without ASCII case have the same last position of a character
/// that is not a letter.
pub proof fn lemma_last_index_of_ignores_case(a: Seq<char>, b: Seq<char>, c: char)
    requires
        same_ignoring_ascii_case(a, b),
        !is_ascii_letter(c),
    ensures
        last_index_of(a, c) == last_index_of(b, c),
    decreases a.len(),
{
    if a.len() > 0 {
        let n = a.len() - 1;
        assert(ascii_lower(a[n]) == ascii_lower(b[n]));
        if a.last() == c {
            lemma_ascii_lower_non_letter(b[n], c);
        } else if b.last() == c {
            lemma_ascii_lower_non_letter(a[n], c);
        } else {
            assert forall|i: int| 0 <= i < a.drop_last().len() implies #[trigger] ascii_lower(
                a.drop_last()[i],
            ) == ascii_lower(b.drop_last()[i]) by {
                assert(ascii_lower(a[i]) == ascii_lower(b[i]));
            }
            lemma_last_index_of_ignores_case(a.drop_last(), b.drop_last(), c);
        }
    }
}

proof fn lemma_last_index_of_in_range(s: Seq<char>, c: char)
    ensures
        -1 <= last_index_of(s, c) < s.len(),
    decreases s.len(),
{
    if s.len() > 0 && s.last() != c {
        lemma_last_index_of_in_range(s.drop_last(), c);
    }
}

/// File names equal without ASCII case have extensions equal without ASCII
/// case (or both none).
pub proof fn lemma_file_extension_ignores_case(a: Seq<char>, b: Seq<char>)
    requires
        same_ignoring_ascii_case(a, b),
    ensures
        file_extension(a) is Some <==> file_extension(b) is Some,
        file_extension(a) is Some ==> same_ignoring_ascii_case(
            file_extension(a)->0,
            file_extension(b)->0,
        ),
{
    lemma_last_index_of_ignores_case(a, b, '.');
    lemma_last_index_of_in_range(a, '.');
    if a.len() == 2 {
        assert(ascii_lower(a[0]) == ascii_lower(b[0]));
        assert(ascii_lower(a[1]) == ascii_lower(b[1]));
        if a == seq!['.', '.'] {
            lemma_ascii_lower_non_letter(b[0], '.');
            lemma_ascii_lower_non_letter(b[1], '.');
            assert(b =~= seq!['.', '.']);
        }
        if b == seq!['.', '.'] {
            lemma_ascii_lower_non_letter(a[0], '.');
            lemma_ascii_lower_non_letter(a[1], '.');
            assert(a =~= seq!['.', '.']);
        }
    } else {
        assert(a != seq!['.', '.']);
        assert(b != seq!['.', '.']);
    }
    let dot = last_index_of(a, '.');
    if file_extension(a) is Some {
        let ea = a.subrange(dot + 1, a.len() as int);
        let eb = b.subrange(dot + 1, b.len() as int);
        assert forall|i: int| 0 <= i < ea.len() implies #[trigger] ascii_lower(ea[i]) == ascii_lower(
            eb[i],
        ) by {
            assert(ascii_lower(a[dot + 1 + i]) == ascii_lower(b[dot + 1 + i]));
        }
    }
}

/// Equality without ASCII case carries over between texts equal without ASCII case.
pub proof fn lemma_eq_ignore_ascii_case_transfer(a: Seq<char>, b: Seq<char>, t: Seq<char>)
    requires
        same_ignoring_ascii_case(a, b),
    ensures
        eq_ignore_ascii_case(a, t) == eq_ignore_ascii_case(b, t),
{
    if eq_ignore_ascii_case(a, t) {
        assert forall|i: int| 0 <= i < b.len() implies #[trigger] ascii_lower(b[i]) == ascii_lower(
            t[i],
        ) by {
            assert(ascii_lower(a[i]) == ascii_lower(b[i]));
            assert(ascii_lower(a[i]) == ascii_lower(t[i]));
        }
    }
    if eq_ignore_ascii_case(b, t) {
        assert forall|i: int| 0 <= i < a.len() implies #[trigger] ascii_lower(a[i]) == ascii_lower(
            t[i],
        ) by {
            assert(ascii_lower(a[i]) == ascii_lower(b[i]));
            assert(ascii_lower(b[i]) == ascii_lower(t[i]));
        }
    }
}

/// Texts that agree up to a position where the first has the smaller
/// character are in that order whatever follows; a text comes before every
/// longer text that starts with it.
pub proof fn lemma_lex_lt_first_difference(p: Seq<char>, x: char, y: char, u: Seq<char>, w: Seq<char>)
    ensures
        (x as int) < (y as int) ==> lex_lt(p.push(x) + u, p.push(y) + w),
        w.len() > 0 ==> lex_lt(p, p + w),
        w.len() > 0 ==> !lex_lt(p + w, p),
{
    if (x as int) < (y as int) {
        lemma_lex_lt_push(p, p, x, y);
        lemma_lex_lt_extend(p.push(x), p.push(y), u, w);
    }
    if w.len() > 0 {
        assert(p =~= p + Seq::<char>::empty());
        lemma_lex_lt_common_prefix(p, Seq::<char>::empty(), w);
        lemma_lex_lt_common_prefix(p, w, Seq::<char>::empty());
    }
}

/// The extension of a file name is what follows its last `.`, provided
/// something other than nothing comes before that dot; a name without a dot,
/// or whose only dot starts it, has none.
pub proof fn lemma_file_extension_rule(stem: Seq<char>, ext: Seq<char>)
    requires
        !ext.contains('.'),
    ensures
        stem.len() > 0 && stem != seq!['.'] ==> file_extension(stem.push('.') + ext) == Some(ext),
        file_extension(ext) is None,
        file_extension(seq!['.'] + ext) is None,
{
    let name = stem.push('.') + ext;
    lemma_last_index_of_prefix(name, '.', stem.len() + 1 as int);
    assert(name.subrange(0, stem.len() + 1 as int) =~= stem.push('.'));
    assert(name.subrange(stem.len() + 1 as int, name.len() as int) =~= ext);
    lemma_last_index_of_none(ext);
    let dotted = seq!['.'] + ext;
    lemma_last_index_of_prefix(dotted, '.', 1);
    assert(dotted.subrange(0, 1) =~= seq!['.']);
    assert(seq!['.'].drop_last() =~= Seq::<char>::empty());
    if stem.len() > 0 && stem != seq!['.'] && name == seq!['.', '.'] {
        assert(stem.len() == 1 && ext.len() == 0);
        assert(stem =~= seq![name[0]]);
    }
    if dotted == seq!['.', '.'] {
        assert(ext[0] == dotted[1]);
    }
}

proof fn lemma_last_index_of_none(s: Seq<char>)
    requires
        !s.contains('.'),
    ensures
        last_index_of(s, '.') == -1,
    decreases s.len(),
{
    if s.len() > 0 {
        assert(s.last() == s[s.len() - 1]);
        assert forall|i: int| 0 <= i < s.drop_last().len() implies s.drop_last()[i] != '.' by {
            assert(s.drop_last()[i] == s[i]);
        }
        lemma_last_index_of_none(s.drop_last());
    }
}

} // verus!
