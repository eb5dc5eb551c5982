use vstd::prelude::*;
use vstd::string::StrSliceExecFns;

verus! {

/// How one character is written inside a JSON string.
pub open spec fn esc_char(c: char) -> Seq<char> {
    if c == '"' {
        seq!['\\', '"']
    } else if c == '\\' {
        seq!['\\', '\\']
    } else if c == '\n' {
        seq!['\\', 'n']
    } else if c == '\r' {
        seq!['\\', 'r']
    } else if c == '\t' {
        seq!['\\', 't']
    } else {
        seq![c]
    }
}

/// A text with every character escaped for a JSON string body.
pub open spec fn escape_str(s: Seq<char>) -> Seq<char>
    decreases s.len(),
{
    if s.len() == 0 {
        Seq::empty()
    } else {
        esc_char(s[0]) + escape_str(s.skip(1))
    }
}

/// A JSON string: quotes around the escaped text.
pub open spec fn quoted(s: Seq<char>) -> Seq<char> {
    seq!['"'] + escape_str(s) + seq!['"']
}

/// Pieces joined with commas.
pub open spec fn join_comma(ps: Seq<Seq<char>>) -> Seq<char>
    decreases ps.len(),
{
    if ps.len() == 0 {
        Seq::empty()
    } else if ps.len() == 1 {
        ps[0]
    } else {
        ps[0] + seq![','] + join_comma(ps.skip(1))
    }
}

/// The members of a JSON array of strings, without the brackets.
pub open spec fn str_list_body(l: Seq<Seq<char>>) -> Seq<char> {
    join_comma(l.map_values(|s: Seq<char>| quoted(s)))
}

/// A JSON array of strings.
pub open spec fn str_list(l: Seq<Seq<char>>) -> Seq<char> {
    seq!['['] + str_list_body(l) + seq![']']
}

pub proof fn lemma_escape_append(a: Seq<char>, b: Seq<char>)
    ensures
        escape_str(a + b) == escape_str(a) + escape_str(b),
    decreases a.len(),
{
    if a.len() == 0 {
        assert(a + b =~= b);
        assert(escape_str(a) + escape_str(b) =~= escape_str(b));
    } else {
        assert((a + b).skip(1) =~= a.skip(1) + b);
        lemma_escape_append(a.skip(1), b);
        assert(escape_str(a + b) =~= escape_str(a) + escape_str(b));
    }
}

pub proof fn lemma_escape_snoc(s: Seq<char>, i: int)
    requires
        0 <= i < s.len(),
    ensures
        escape_str(s.take(i + 1)) == escape_str(s.take(i)) + esc_char(s[i]),
{
    assert(s.take(i + 1) =~= s.take(i) + seq![s[i]]);
    lemma_escape_append(s.take(i), seq![s[i]]);
    assert(seq![s[i]].skip(1) =~= Seq::<char>::empty());
    assert(escape_str(seq![s[i]]) =~= esc_char(s[i]) + escape_str(Seq::<char>::empty()));
    assert(esc_char(s[i]) + Seq::<char>::empty() =~= esc_char(s[i]));
    assert(escape_str(s.take(i)) + escape_str(seq![s[i]]) =~= escape_str(s.take(i)) + esc_char(
        s[i],
    ));
}

pub proof fn lemma_join_comma_snoc(ps: Seq<Seq<char>>, p: Seq<char>)
    ensures
        join_comma(ps.push(p)) == if ps.len() == 0 {
            p
        } else {
            join_comma(ps) + seq![','] + p
        },
    decreases ps.len(),
{
    if ps.len() == 0 {
        assert(ps.push(p).len() == 1);
        assert(join_comma(ps.push(p)) == ps.push(p)[0]);
        assert(ps.push(p)[0] == p);
    } else {
        assert(ps.push(p).skip(1) =~= ps.skip(1).push(p));
        lemma_join_comma_snoc(ps.skip(1), p);
        if ps.len() == 1 {
            assert(join_comma(ps.push(p)) =~= join_comma(ps) + seq![','] + p);
        } else {
            assert(join_comma(ps) == ps[0] + seq![','] + join_comma(ps.skip(1)));
            assert(join_comma(ps.push(p)) =~= join_comma(ps) + seq![','] + p);
        }
    }
}

/// Append a literal's characters to the output.
pub(crate) fn push_lit(out: &mut Vec<char>, lit: &str)
    ensures
        final(out)@ == old(out)@ + lit@,
{
    let len = lit.unicode_len();
    let mut i: usize = 0;
    proof {
        assert(out@ =~= old(out)@ + lit@.take(0));
    }
    while i < len
        invariant
            len == lit@.len(),
            i <= len,
            out@ == old(out)@ + lit@.take(i as int),
        decreases len - i,
    {
        out.push(lit.get_char(i));
        i += 1;
        proof {
            assert(out@ =~= old(out)@ + lit@.take(i as int));
        }
    }
    proof {
        assert(old(out)@ + lit@.take(len as int) =~= old(out)@ + lit@);
    }
}

/// Append a JSON string (quotes and escapes) for `s`.
pub(crate) fn push_quoted(out: &mut Vec<char>, s: &str)
    ensures
        final(out)@ == old(out)@ + quoted(s@),
{
    out.push('"');
    let len = s.unicode_len();
    let mut i: usize = 0;
    proof {
        assert(out@ =~= old(out)@ + seq!['"'] + escape_str(s@.take(0)));
    }
    while i < len
        invariant
            len == s@.len(),
            i <= len,
            out@ == old(out)@ + seq!['"'] + escape_str(s@.take(i as int)),
        decreases len - i,
    {
        let c = s.get_char(i);
        if c == '"' {
            out.push('\\');
            out.push('"');
        } else if c == '\\' {
            out.push('\\');
            out.push('\\');
        } else if c == '\n' {
            out.push('\\');
            out.push('n');
        } else if c == '\r' {
            out.push('\\');
            out.push('r');
        } else if c == '\t' {
            out.push('\\');
            out.push('t');
        } else {
            out.push(c);
        }
        proof {
            lemma_escape_snoc(s@, i as int);
        }
        i += 1;
        proof {
            assert(out@ =~= old(out)@ + seq!['"'] + escape_str(s@.take(i as int)));
        }
    }
    out.push('"');
    proof {
        assert(s@.take(len as int) =~= s@);
        assert(out@ =~= old(out)@ + quoted(s@));
    }
}

/// Append a JSON array holding the strings of `l`.
pub(crate) fn push_str_list(out: &mut Vec<char>, l: &Vec<String>)
    ensures
        final(out)@ == old(out)@ + str_list(l.deep_view()),
{
    let ghost pieces = l.deep_view().map_values(|s: Seq<char>| quoted(s));
    out.push('[');
    let mut i: usize = 0;
    proof {
        assert(out@ =~= old(out)@ + seq!['['] + join_comma(pieces.take(0)));
    }
    while i < l.len()
        invariant
            pieces == l.deep_view().map_values(|s: Seq<char>| quoted(s)),
            pieces.len() == l@.len(),
            i <= l@.len(),
            out@ == old(out)@ + seq!['['] + join_comma(pieces.take(i as int)),
        decreases l@.len() - i,
    {
        if i > 0 {
            out.push(',');
        }
        push_quoted(out, l[i].as_str());
        proof {
            assert(l.deep_view()[i as int] == l@[i as int]@);
            assert(pieces[i as int] == quoted(l@[i as int]@));
            lemma_join_comma_snoc(pieces.take(i as int), pieces[i as int]);
            assert(pieces.take(i as int).push(pieces[i as int]) =~= pieces.take(i + 1));
        }
        i += 1;
        proof {
            assert(out@ =~= old(out)@ + seq!['['] + join_comma(pieces.take(i as int)));
        }
    }
    out.push(']');
    proof {
        assert(pieces.take(l@.len() as int) =~= pieces);
        assert(out@ =~= old(out)@ + str_list(l.deep_view()));
    }
}

/// The character an escape letter stands for.
pub open spec fn unesc(e: char) -> char {
    if e == '"' {
        '"'
    } else if e == '\\' {
        '\\'
    } else if e == 'n' {
        '\n'
    } else if e == 'r' {
        '\r'
    } else {
        '\t'
    }
}

/// The escape letters the format knows.
pub open spec fn is_esc_code(e: char) -> bool {
    e == '"' || e == '\\' || e == 'n' || e == 'r' || e == 't'
}

/// Parse the body of a JSON string after its opening quote. Yields the
/// decoded text and the number of characters consumed, closing quote
/// included.
pub open spec fn parse_str_body(s: Seq<char>) -> Option<(Seq<char>, int)>
    decreases s.len(),
{
    if s.len() == 0 {
        None
    } else if s[0] == '"' {
        Some((Seq::empty(), 1))
    } else if s[0] == '\\' {
        if s.len() < 2 || !is_esc_code(s[1]) {
            None
        } else {
            match parse_str_body(s.skip(2)) {
                Some((t, n)) => Some((seq![unesc(s[1])] + t, n + 2)),
                None => None,
            }
        }
    } else {
        match parse_str_body(s.skip(1)) {
            Some((t, n)) => Some((seq![s[0]] + t, n + 1)),
            None => None,
        }
    }
}

/// Parse a whole JSON string, opening quote included.
pub open spec fn parse_quoted(s: Seq<char>) -> Option<(Seq<char>, int)> {
    if s.len() > 0 && s[0] == '"' {
        match parse_str_body(s.skip(1)) {
            Some((t, n)) => Some((t, n + 1)),
            None => None,
        }
    } else {
        None
    }
}

/// Whether `lit` is what comes next in `s`.
pub open spec fn lit_at(s: Seq<char>, lit: Seq<char>) -> bool {
    s.len() >= lit.len() && s.take(lit.len() as int) == lit
}

pub proof fn lemma_parse_str_body_bound(s: Seq<char>)
    ensures
        parse_str_body(s) matches Some((t, n)) ==> 1 <= n <= s.len(),
    decreases s.len(),
{
    if s.len() == 0 {
    } else if s[0] == '"' {
    } else if s[0] == '\\' {
        if s.len() >= 2 && is_esc_code(s[1]) {
            lemma_parse_str_body_bound(s.skip(2));
        }
    } else {
        lemma_parse_str_body_bound(s.skip(1));
    }
}

pub proof fn lemma_parse_quoted_bound(s: Seq<char>)
    ensures
        parse_quoted(s) matches Some((t, n)) ==> 2 <= n <= s.len(),
{
    if s.len() > 0 && s[0] == '"' {
        lemma_parse_str_body_bound(s.skip(1));
    }
}

/// Parse the members of a string array after the opening bracket, for a
/// non-empty array. Consumes the closing bracket.
pub open spec fn parse_str_items(s: Seq<char>) -> Option<(Seq<Seq<char>>, int)>
    decreases s.len(),
    via parse_str_items_dec
{
    match parse_quoted(s) {
        None => None,
        Some((item, n)) => {
            let r = s.skip(n);
            if r.len() > 0 && r[0] == ',' {
                match parse_str_items(s.skip(n + 1)) {
                    Some((l, m)) => Some((seq![item] + l, n + 1 + m)),
                    None => None,
                }
            } else if r.len() > 0 && r[0] == ']' {
                Some((seq![item], n + 1))
            } else {
                None
            }
        },
    }
}

#[via_fn]
proof fn parse_str_items_dec(s: Seq<char>) {
    lemma_parse_quoted_bound(s);
}

/// Parse a JSON array of strings, brackets included.
pub open spec fn parse_str_list(s: Seq<char>) -> Option<(Seq<Seq<char>>, int)> {
    if s.len() == 0 || s[0] != '[' {
        None
    } else if s.len() >= 2 && s[1] == ']' {
        Some((Seq::empty(), 2))
    } else {
        match parse_str_items(s.skip(1)) {
            Some((l, n)) => Some((l, n + 1)),
            None => None,
        }
    }
}

pub proof fn lemma_parse_str_items_bound(s: Seq<char>)
    ensures
        parse_str_items(s) matches Some((l, n)) ==> 1 <= n <= s.len(),
    decreases s.len(),
{
    lemma_parse_quoted_bound(s);
    match parse_quoted(s) {
        None => {},
        Some((item, n)) => {
            let r = s.skip(n);
            if r.len() > 0 && r[0] == ',' {
                lemma_parse_str_items_bound(s.skip(n + 1));
            }
        },
    }
}

pub proof fn lemma_parse_str_list_bound(s: Seq<char>)
    ensures
        parse_str_list(s) matches Some((l, n)) ==> 1 <= n <= s.len(),
{
    if s.len() > 0 && s[0] == '[' && !(s.len() >= 2 && s[1] == ']') {
        lemma_parse_str_items_bound(s.skip(1));
    }
}

pub proof fn lemma_parse_escape(s: Seq<char>, rest: Seq<char>)
    ensures
        parse_str_body(escape_str(s) + seq!['"'] + rest) == Some((s, escape_str(s).len() + 1 as int)),
    decreases s.len(),
{
    let w = escape_str(s) + seq!['"'] + rest;
    if s.len() == 0 {
        assert(w =~= seq!['"'] + rest);
        assert(w[0] == '"');
        assert(s =~= Seq::<char>::empty());
    } else {
        let c = s[0];
        lemma_parse_escape(s.skip(1), rest);
        let w2 = escape_str(s.skip(1)) + seq!['"'] + rest;
        if c == '"' || c == '\\' || c == '\n' || c == '\r' || c == '\t' {
            assert(esc_char(c).len() == 2);
            assert(w[0] == '\\');
            assert(is_esc_code(w[1]) && unesc(w[1]) == c);
            assert(w.skip(2) =~= w2);
            assert(seq![c] + s.skip(1) =~= s);
            assert(parse_str_body(w) == Some((s, escape_str(s).len() + 1 as int)));
        } else {
            assert(esc_char(c) =~= seq![c]);
            assert(w[0] == c);
            assert(c != '"' && c != '\\');
            assert(w.skip(1) =~= w2);
            assert(seq![c] + s.skip(1) =~= s);
            assert(parse_str_body(w) == Some((s, escape_str(s).len() + 1 as int)));
        }
    }
}

pub proof fn lemma_parse_quoted_of(s: Seq<char>, rest: Seq<char>)
    ensures
        parse_quoted(quoted(s) + rest) == Some((s, quoted(s).len() as int)),
{
    let w = quoted(s) + rest;
    assert(w[0] == '"');
    assert(w.skip(1) =~= escape_str(s) + seq!['"'] + rest);
    lemma_parse_escape(s, rest);
}

pub proof fn lemma_parse_str_items_of(l: Seq<Seq<char>>, rest: Seq<char>)
    requires
        l.len() > 0,
    ensures
        parse_str_items(str_list_body(l) + seq![']'] + rest) == Some(
            (l, str_list_body(l).len() + 1 as int),
        ),
    decreases l.len(),
{
    let w = str_list_body(l) + seq![']'] + rest;
    let pieces = l.map_values(|s: Seq<char>| quoted(s));
    if l.len() == 1 {
        assert(str_list_body(l) =~= quoted(l[0]));
        lemma_parse_quoted_of(l[0], seq![']'] + rest);
        assert(w =~= quoted(l[0]) + (seq![']'] + rest));
        let n = quoted(l[0]).len() as int;
        lemma_parse_quoted_bound(w);
        assert(w.skip(n) =~= seq![']'] + rest);
        assert(seq![l[0]] =~= l);
    } else {
        assert(pieces.skip(1) =~= l.skip(1).map_values(|s: Seq<char>| quoted(s)));
        assert(str_list_body(l) =~= quoted(l[0]) + seq![','] + str_list_body(l.skip(1)));
        let tail = seq![','] + str_list_body(l.skip(1)) + seq![']'] + rest;
        assert(w =~= quoted(l[0]) + tail);
        lemma_parse_quoted_of(l[0], tail);
        let n = quoted(l[0]).len() as int;
        assert(w.skip(n) =~= tail);
        assert(tail[0] == ',');
        assert(w.skip(n + 1) =~= str_list_body(l.skip(1)) + seq![']'] + rest);
        lemma_parse_str_items_of(l.skip(1), rest);
        assert(seq![l[0]] + l.skip(1) =~= l);
        assert(parse_str_items(w) == Some((l, str_list_body(l).len() + 1 as int)));
    }
}

pub proof fn lemma_parse_str_list_of(l: Seq<Seq<char>>, rest: Seq<char>)
    ensures
        parse_str_list(str_list(l) + rest) == Some((l, str_list(l).len() as int)),
{
    let w = str_list(l) + rest;
    assert(w[0] == '[');
    if l.len() == 0 {
        assert(str_list_body(l) =~= Seq::<char>::empty());
        assert(w =~= seq!['[', ']'] + rest);
        assert(w[1] == ']');
        assert(l =~= Seq::<Seq<char>>::empty());
        assert(str_list(l).len() == 2);
    } else {
        assert(w.skip(1) =~= str_list_body(l) + seq![']'] + rest);
        lemma_parse_str_items_of(l, rest);
        assert(str_list_body(l)[0] == '"');
        assert(w[1] == '"');
        assert(!(w.len() >= 2 && w[1] == ']'));
        assert(parse_str_list(w) == Some((l, str_list(l).len() as int)));
    }
}

/// Match a literal at position `i`; on success return the position after it.
pub(crate) fn expect_lit(v: &Vec<char>, i: usize, lit: &str) -> (r: Option<usize>)
    requires
        i <= v@.len(),
    ensures
        r matches Some(j) ==> j == i + lit@.len() && j <= v@.len() && lit_at(
            v@.skip(i as int),
            lit@,
        ),
        r is None ==> !lit_at(v@.skip(i as int), lit@),
{
    let n = lit.unicode_len();
    let vlen = v.len();
    if vlen - i < n {
        return None;
    }
    let mut k: usize = 0;
    while k < n
        invariant
            n == lit@.len(),
            vlen == v@.len(),
            i + n <= vlen,
            k <= n,
            forall|m: int| 0 <= m < k ==> v@[i + m] == lit@[m],
        decreases n - k,
    {
        if v[i + k] != lit.get_char(k) {
            proof {
                assert(v@.skip(i as int).take(n as int)[k as int] == v@[i + k]);
                assert(!lit_at(v@.skip(i as int), lit@));
            }
            return None;
        }
        k += 1;
    }
    proof {
        assert(v@.skip(i as int).take(n as int) =~= lit@);
    }
    Some(i + n)
}

/// Parse a JSON string starting at position `i` (at its opening quote).
pub(crate) fn parse_string(v: &Vec<char>, i: usize) -> (r: Option<(String, usize)>)
    requires
        i <= v@.len(),
    ensures
        r matches Some(t) ==> i <= t.1 <= v@.len() && parse_quoted(v@.skip(i as int)) == Some(
            (t.0@, t.1 - i as int),
        ),
        r is None ==> parse_quoted(v@.skip(i as int)) is None,
{
    if i == v.len() || v[i] != '"' {
        return None;
    }
    let ghost s0 = v@.skip(i as int + 1);
    let mut acc: Vec<char> = Vec::new();
    let mut p: usize = i + 1;
    proof {
        assert(v@.skip(i as int)[0] == '"');
        assert(acc@ + Seq::<char>::empty() =~= acc@);
    }
    loop
        invariant
            i + 1 <= p <= v@.len(),
            s0 == v@.skip(i as int + 1),
            i < v@.len() && v@[i as int] == '"',
            parse_str_body(s0) == (match parse_str_body(v@.skip(p as int)) {
                Some((t, n)) => Some((acc@ + t, n + p - i - 1)),
                None => None::<(Seq<char>, int)>,
            }),
        decreases v@.len() - p,
    {
        if p == v.len() {
            proof {
                assert(v@.skip(p as int).len() == 0);
                assert(v@.skip(i as int).skip(1) =~= s0);
            }
            return None;
        }
        let c = v[p];
        proof {
            assert(v@.skip(p as int)[0] == c);
            assert(v@.skip(p as int).len() > 0);
        }
        if c == '"' {
            proof {
                assert(parse_str_body(v@.skip(p as int)) == Some((Seq::<char>::empty(), 1int)));
                assert(acc@ + Seq::<char>::empty() =~= acc@);
                assert(parse_str_body(s0) == Some((acc@, p - i as int)));
                assert(v@.skip(i as int).skip(1) =~= s0);
            }
            let out = crate::text::chars_to_string(&acc);
            return Some((out, p + 1));
        } else if c == '\\' {
            if p + 1 == v.len() {
                proof {
                    assert(v@.skip(p as int).len() == 1);
                    assert(v@.skip(i as int).skip(1) =~= s0);
                }
                return None;
            }
            let e = v[p + 1];
            proof {
                assert(v@.skip(p as int)[1] == e);
            }
            let d: char;
            if e == '"' {
                d = '"';
            } else if e == '\\' {
                d = '\\';
            } else if e == 'n' {
                d = '\n';
            } else if e == 'r' {
                d = '\r';
            } else if e == 't' {
                d = '\t';
            } else {
                proof {
                    assert(!is_esc_code(e));
                    assert(parse_str_body(v@.skip(p as int)) is None);
                    assert(v@.skip(i as int).skip(1) =~= s0);
                }
                return None;
            }
            proof {
                assert(is_esc_code(e) && unesc(e) == d);
            }
            let ghost accp = acc@;
            acc.push(d);
            proof {
                assert(v@.skip(p as int).skip(2) =~= v@.skip(p as int + 2));
                match parse_str_body(v@.skip(p as int + 2)) {
                    Some((t, n)) => {
                        assert(parse_str_body(v@.skip(p as int)) == Some(
                            (seq![d] + t, n + 2int),
                        ));
                        assert(accp + (seq![d] + t) =~= acc@ + t);
                    },
                    None => {},
                }
            }
            p += 2;
        } else {
            let ghost accp = acc@;
            acc.push(c);
            proof {
                assert(v@.skip(p as int).skip(1) =~= v@.skip(p as int + 1));
                match parse_str_body(v@.skip(p as int + 1)) {
                    Some((t, n)) => {
                        assert(parse_str_body(v@.skip(p as int)) == Some(
                            (seq![c] + t, n + 1int),
                        ));
                        assert(accp + (seq![c] + t) =~= acc@ + t);
                    },
                    None => {},
                }
            }
            p += 1;
        }
    }
}

/// Parse a JSON array of strings starting at position `i`.
pub(crate) fn parse_string_list(v: &Vec<char>, i: usize) -> (r: Option<(Vec<String>, usize)>)
    requires
        i <= v@.len(),
    ensures
        r matches Some(t) ==> i <= t.1 <= v@.len() && parse_str_list(v@.skip(i as int)) == Some(
            (t.0.deep_view(), t.1 - i as int),
        ),
        r is None ==> parse_str_list(v@.skip(i as int)) is None,
{
    if i == v.len() || v[i] != '[' {
        return None;
    }
    proof {
        assert(v@.skip(i as int)[0] == '[');
    }
    if i + 1 < v.len() && v[i + 1] == ']' {
        let out: Vec<String> = Vec::new();
        proof {
            assert(v@.skip(i as int)[1] == ']');
            assert(out.deep_view() =~= Seq::<Seq<char>>::empty());
        }
        return Some((out, i + 2));
    }
    proof {
        if i + 1 < v@.len() {
            assert(v@.skip(i as int)[1] == v@[i as int + 1]);
        }
        assert(!(v@.skip(i as int).len() >= 2 && v@.skip(i as int)[1] == ']'));
    }
    let mut acc: Vec<String> = Vec::new();
    let mut p: usize = i + 1;
    proof {
        assert(v@.skip(i as int).skip(1) =~= v@.skip(i as int + 1));
    }
    loop
        invariant
            i + 1 <= p <= v@.len(),
            i < v@.len() && v@[i as int] == '[',
            !(v@.skip(i as int).len() >= 2 && v@.skip(i as int)[1] == ']'),
            v@.skip(i as int).skip(1) == v@.skip(i as int + 1),
            parse_str_items(v@.skip(i as int + 1)) == (match parse_str_items(v@.skip(p as int)) {
                Some((l, n)) => Some((acc.deep_view() + l, n + p - i - 1)),
                None => None::<(Seq<Seq<char>>, int)>,
            }),
        decreases v@.len() - p,
    {
        let item = parse_string(v, p);
        match item {
            None => {
                return None;
            },
            Some((s, j)) => {
                proof {
                    lemma_parse_quoted_bound(v@.skip(p as int));
                    assert(v@.skip(p as int).skip(j - p as int) =~= v@.skip(j as int));
                }
                if j == v.len() {
                    proof {
                        assert(v@.skip(j as int).len() == 0);
                    }
                    return None;
                }
                let c = v[j];
                proof {
                    assert(v@.skip(j as int)[0] == c);
                }
                if c == ',' {
                    let ghost accp = acc.deep_view();
                    acc.push(s);
                    proof {
                        assert(v@.skip(p as int).skip(j - p as int + 1) =~= v@.skip(j as int + 1));
                        assert(acc.deep_view() =~= accp.push(s@));
                        match parse_str_items(v@.skip(j as int + 1)) {
                            Some((l, n)) => {
                                assert(parse_str_items(v@.skip(p as int)) == Some(
                                    (seq![s@] + l, n + (j - p as int) + 1),
                                ));
                                assert(accp + (seq![s@] + l) =~= acc.deep_view() + l);
                            },
                            None => {},
                        }
                    }
                    p = j + 1;
                } else if c == ']' {
                    let ghost accp = acc.deep_view();
                    acc.push(s);
                    proof {
                        assert(acc.deep_view() =~= accp.push(s@));
                        assert(parse_str_items(v@.skip(p as int)) == Some(
                            (seq![s@], (j - p as int) + 1),
                        ));
                        assert(accp + seq![s@] =~= acc.deep_view());
                        assert(parse_str_items(v@.skip(i as int + 1)) == Some(
                            (acc.deep_view(), j + 1 - i - 1int),
                        ));
                    }
                    return Some((acc, j + 1));
                } else {
                    return None;
                }
            },
        }
    }
}


/// Whitespace between members, as JSON knows it.
pub open spec fn is_ws(c: char) -> bool {
    c == ' ' || c == '\n' || c == '\r' || c == '\t'
}

/// Remove the whitespace standing outside string members. `in_str` says the
/// position is inside a string, `esc` that the character before it was a
/// string escape's backslash.
pub open spec fn strip_ws_from(s: Seq<char>, in_str: bool, esc: bool) -> Seq<char>
    decreases s.len(),
{
    if s.len() == 0 {
        Seq::empty()
    } else {
        let c = s[0];
        if !in_str && is_ws(c) {
            strip_ws_from(s.skip(1), in_str, esc)
        } else {
            let nin = if in_str {
                !(!esc && c == '"')
            } else {
                c == '"'
            };
            let nesc = in_str && !esc && c == '\\';
            seq![c] + strip_ws_from(s.skip(1), nin, nesc)
        }
    }
}

/// A text with the whitespace outside its string members removed.
pub open spec fn strip_ws(s: Seq<char>) -> Seq<char> {
    strip_ws_from(s, false, false)
}

/// Remove the whitespace standing outside string members.
pub(crate) fn strip_ws_x(v: &Vec<char>) -> (r: Vec<char>)
    ensures
        r@ == strip_ws(v@),
{
    let mut out: Vec<char> = Vec::new();
    let mut i: usize = 0;
    let mut in_str = false;
    let mut esc = false;
    proof {
        assert(v@.skip(0) =~= v@);
        assert(out@ + strip_ws_from(v@, false, false) =~= strip_ws_from(v@, false, false));
    }
    while i < v.len()
        invariant
            i <= v@.len(),
            !in_str ==> !esc,
            strip_ws(v@) == out@ + strip_ws_from(v@.skip(i as int), in_str, esc),
        decreases v@.len() - i,
    {
        let c = v[i];
        proof {
            assert(v@.skip(i as int)[0] == c);
            assert(v@.skip(i as int).len() > 0);
            assert(v@.skip(i as int).skip(1) =~= v@.skip(i as int + 1));
        }
        let ghost outp = out@;
        if !in_str && (c == ' ' || c == '\n' || c == '\r' || c == '\t') {
            proof {
                assert(is_ws(c));
            }
        } else {
            out.push(c);
            let was_in = in_str;
            let was_esc = esc;
            if in_str {
                if esc {
                    esc = false;
                } else if c == '\\' {
                    esc = true;
                } else if c == '"' {
                    in_str = false;
                } else {
                }
            } else {
                if c == '"' {
                    in_str = true;
                }
            }
            proof {
                assert(!(!was_in && is_ws(c)));
                let nin = if was_in {
                    !(!was_esc && c == '"')
                } else {
                    c == '"'
                };
                let nesc = was_in && !was_esc && c == '\\';
                assert(strip_ws_from(v@.skip(i as int), was_in, was_esc) == seq![c]
                    + strip_ws_from(v@.skip(i as int).skip(1), nin, nesc));
                assert(nin == in_str && nesc == esc);
                assert(outp + (seq![c] + strip_ws_from(v@.skip(i as int + 1), in_str, esc))
                    =~= out@ + strip_ws_from(v@.skip(i as int + 1), in_str, esc));
            }
        }
        i += 1;
    }
    proof {
        assert(v@.skip(v@.len() as int).len() == 0);
        assert(out@ + Seq::<char>::empty() =~= out@);
    }
    out
}

} // verus!
