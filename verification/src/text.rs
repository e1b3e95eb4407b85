//! Character-level text helpers.
//!
//! The verified logic works on `Vec<char>` and `Seq<char>`; strings are
//! converted at the boundary. Decimal rendering and parsing, ASCII case
//! folding, and splitting and joining on a separator live here, together
//! with the round-trip lemmas the rest of the library relies on.

use vstd::prelude::*;

verus! {

use vstd::std_specs::iter::IteratorSpec;

broadcast use vstd::string::next_postcondition, vstd::string::axiom_spec_iter;

/// The characters of `s`, as a vector.
pub fn chars_of(s: &str) -> (r: Vec<char>)
    ensures
        r@ == s@,
{
    let mut it = s.chars();
    let mut r: Vec<char> = Vec::new();
    let ghost all = s@;
    loop
        invariant
            it.obeys_prophetic_iter_laws(),
            IteratorSpec::decrease(&it) is Some,
            r@ + IteratorSpec::remaining(&it) == all,
        ensures
            r@ == all,
        decreases IteratorSpec::decrease(&it)->0,
    {
        let ghost pre = IteratorSpec::remaining(&it);
        match it.next() {
            Some(c) => {
                r.push(c);
                proof {
                    assert(r@ + IteratorSpec::remaining(&it) =~= all);
                }
            },
            None => {
                proof {
                    assert(r@ =~= all);
                }
                break;
            },
        }
    }
    r
}

/// Relies on String::from_iter over chars: the returned string holds exactly
/// the given characters, in order.
#[verifier::external_body]
pub fn string_from_chars(v: &Vec<char>) -> (r: String)
    ensures
        r@ == v@,
{
    v.iter().collect()
}

/// The sub-vector `v[from..to]`.
pub fn sub_vec(v: &Vec<char>, from: usize, to: usize) -> (r: Vec<char>)
    requires
        from <= to <= v@.len(),
    ensures
        r@ == v@.subrange(from as int, to as int),
{
    let mut r: Vec<char> = Vec::new();
    let mut i: usize = from;
    while i < to
        invariant
            from <= i <= to <= v@.len(),
            r@ == v@.subrange(from as int, i as int),
        decreases to - i,
    {
        r.push(v[i]);
        proof {
            assert(r@ =~= v@.subrange(from as int, i + 1 as int));
        }
        i = i + 1;
    }
    r
}

/// Whether two character vectors hold the same characters.
pub fn chars_eq(a: &Vec<char>, b: &Vec<char>) -> (r: bool)
    ensures
        r <==> a@ == b@,
{
    if a.len() != b.len() {
        proof {
            assert(a@ != b@);
        }
        return false;
    }
    let mut i: usize = 0;
    while i < a.len()
        invariant
            0 <= i <= a@.len(),
            a@.len() == b@.len(),
            forall|j: int| 0 <= j < i ==> a@[j] == b@[j],
        decreases a@.len() - i,
    {
        if a[i] != b[i] {
            proof {
                assert(a@ != b@);
            }
            return false;
        }
        i = i + 1;
    }
    proof {
        assert(a@ =~= b@);
    }
    true
}

/// Whether `v` contains the character `c`.
pub fn contains_char(v: &Vec<char>, c: char) -> (r: bool)
    ensures
        r <==> v@.contains(c),
{
    let mut i: usize = 0;
    while i < v.len()
        invariant
            0 <= i <= v@.len(),
            forall|j: int| 0 <= j < i ==> v@[j] != c,
        decreases v@.len() - i,
    {
        if v[i] == c {
            return true;
        }
        i = i + 1;
    }
    false
}

/// ASCII lower case of one character; anything but `A`..`Z` is unchanged.
pub open spec fn lower_char(c: char) -> char {
    if 65 <= c as u32 <= 90 {
        ((c as u32 + 32) as u8) as char
    } else {
        c
    }
}

/// ASCII lower case of a character sequence.
pub open spec fn lower_chars(s: Seq<char>) -> Seq<char> {
    s.map_values(|c: char| lower_char(c))
}

/// Lower-cases ASCII letters, leaving every other character unchanged.
pub fn ascii_lower(v: &Vec<char>) -> (r: Vec<char>)
    ensures
        r@ == lower_chars(v@),
{
    let mut r: Vec<char> = Vec::new();
    let mut i: usize = 0;
    while i < v.len()
        invariant
            0 <= i <= v@.len(),
            r@ == lower_chars(v@.subrange(0, i as int)),
        decreases v@.len() - i,
    {
        let c = v[i];
        let u = c as u32;
        if 65 <= u && u <= 90 {
            r.push(((u + 32) as u8) as char);
        } else {
            r.push(c);
        }
        proof {
            assert(r@ =~= lower_chars(v@.subrange(0, i + 1 as int)));
        }
        i = i + 1;
    }
    proof {
        assert(v@.subrange(0, v@.len() as int) =~= v@);
    }
    r
}

/// The character for a decimal digit.
pub open spec fn digit_char(d: int) -> char {
    if d == 0 {
        '0'
    } else if d == 1 {
        '1'
    } else if d == 2 {
        '2'
    } else if d == 3 {
        '3'
    } else if d == 4 {
        '4'
    } else if d == 5 {
        '5'
    } else if d == 6 {
        '6'
    } else if d == 7 {
        '7'
    } else if d == 8 {
        '8'
    } else {
        '9'
    }
}

/// Decimal rendering of a natural number, most significant digit first.
pub open spec fn decimal_of(n: nat) -> Seq<char>
    decreases n,
{
    if n < 10 {
        seq![digit_char(n as int)]
    } else {
        decimal_of(n / 10).push(digit_char((n % 10) as int))
    }
}

/// Appends the decimal rendering of `n` to `out`.
pub fn push_decimal(n: u64, out: &mut Vec<char>)
    ensures
        final(out)@ == old(out)@ + decimal_of(n as nat),
    decreases n,
{
    if n >= 10 {
        push_decimal(n / 10, out);
    }
    let d: u64 = n % 10;
    let ch: char = if d == 0 {
        '0'
    } else if d == 1 {
        '1'
    } else if d == 2 {
        '2'
    } else if d == 3 {
        '3'
    } else if d == 4 {
        '4'
    } else if d == 5 {
        '5'
    } else if d == 6 {
        '6'
    } else if d == 7 {
        '7'
    } else if d == 8 {
        '8'
    } else {
        '9'
    };
    proof {
        assert(ch == digit_char((n % 10) as int));
    }
    out.push(ch);
    proof {
        if n >= 10 {
            assert(out@ =~= old(out)@ + decimal_of(n as nat));
        } else {
            assert(out@ =~= old(out)@ + decimal_of(n as nat));
        }
    }
}

/// The views of a vector of character vectors.
pub open spec fn views_of(parts: Seq<Vec<char>>) -> Seq<Seq<char>> {
    parts.map_values(|p: Vec<char>| p@)
}

/// The pieces of `s` between occurrences of `sep`. Splitting an empty
/// sequence gives one empty piece; `n` separators give `n + 1` pieces.
pub open spec fn split_at_seps(s: Seq<char>, sep: char) -> Seq<Seq<char>>
    decreases s.len(),
{
    if s.len() == 0 {
        seq![Seq::<char>::empty()]
    } else {
        let rest = split_at_seps(s.drop_first(), sep);
        if s[0] == sep {
            seq![Seq::<char>::empty()] + rest
        } else {
            seq![seq![s[0]] + rest[0]] + rest.drop_first()
        }
    }
}

/// The pieces joined back together with `sep` between them.
pub open spec fn join_with(parts: Seq<Seq<char>>, sep: char) -> Seq<char>
    decreases parts.len(),
{
    if parts.len() == 0 {
        Seq::<char>::empty()
    } else if parts.len() == 1 {
        parts[0]
    } else {
        parts[0] + seq![sep] + join_with(parts.drop_first(), sep)
    }
}

/// Splitting always yields at least one piece.
pub proof fn lemma_split_len(s: Seq<char>, sep: char)
    ensures
        split_at_seps(s, sep).len() >= 1,
    decreases s.len(),
{
    if s.len() > 0 {
        lemma_split_len(s.drop_first(), sep);
    }
}

/// A prefix free of separators melts into the first piece of the rest.
pub proof fn lemma_split_prepend(p: Seq<char>, s: Seq<char>, sep: char)
    requires
        !p.contains(sep),
    ensures
        split_at_seps(p + s, sep) == seq![p + split_at_seps(s, sep)[0]] + split_at_seps(
            s,
            sep,
        ).drop_first(),
    decreases p.len(),
{
    lemma_split_len(s, sep);
    if p.len() == 0 {
        assert(p + s =~= s);
        assert(p + split_at_seps(s, sep)[0] =~= split_at_seps(s, sep)[0]);
        assert(seq![split_at_seps(s, sep)[0]] + split_at_seps(s, sep).drop_first() =~= split_at_seps(
            s,
            sep,
        ));
    } else {
        let c = p[0];
        assert(p.contains(p[0])) by {
            assert(p[0] == p[0]);
        }
        assert(c != sep);
        let tail = p.drop_first() + s;
        assert((p + s).drop_first() =~= tail);
        assert((p + s)[0] == c);
        assert(!p.drop_first().contains(sep)) by {
            assert(forall|i: int|
                0 <= i < p.drop_first().len() ==> p.drop_first()[i] == p[i + 1]);
        }
        lemma_split_prepend(p.drop_first(), s, sep);
        let rest = split_at_seps(tail, sep);
        assert(split_at_seps(p + s, sep) == seq![seq![c] + rest[0]] + rest.drop_first());
        let sp = split_at_seps(s, sep);
        assert(rest == seq![p.drop_first() + sp[0]] + sp.drop_first());
        assert(rest[0] == p.drop_first() + sp[0]);
        assert(seq![c] + rest[0] =~= p + sp[0]);
        assert(rest.drop_first() =~= sp.drop_first());
    }
}

/// A leading separator contributes one empty piece.
pub proof fn lemma_split_leading_sep(s: Seq<char>, sep: char)
    ensures
        split_at_seps(seq![sep] + s, sep) == seq![Seq::<char>::empty()] + split_at_seps(s, sep),
{
    let t = seq![sep] + s;
    assert(t[0] == sep);
    assert(t.drop_first() =~= s);
}

/// Joining pieces and splitting again recovers the pieces, provided there is
/// at least one piece and no piece contains the separator.
pub proof fn lemma_split_join(parts: Seq<Seq<char>>, sep: char)
    requires
        parts.len() >= 1,
        forall|i: int| 0 <= i < parts.len() ==> !(#[trigger] parts[i]).contains(sep),
    ensures
        split_at_seps(join_with(parts, sep), sep) == parts,
    decreases parts.len(),
{
    if parts.len() == 1 {
        assert(!parts[0].contains(sep));
        lemma_split_prepend(parts[0], Seq::<char>::empty(), sep);
        assert(parts[0] + Seq::<char>::empty() =~= parts[0]);
        assert(split_at_seps(Seq::<char>::empty(), sep) == seq![Seq::<char>::empty()]);
        assert(parts[0] + split_at_seps(Seq::<char>::empty(), sep)[0] =~= parts[0]);
        assert(split_at_seps(parts[0], sep) =~= seq![parts[0]]);
        assert(split_at_seps(join_with(parts, sep), sep) =~= parts);
    } else {
        let rest = parts.drop_first();
        assert(forall|i: int| 0 <= i < rest.len() ==> !(#[trigger] rest[i]).contains(sep)) by {
            assert(forall|i: int| 0 <= i < rest.len() ==> rest[i] == parts[i + 1]);
        }
        lemma_split_join(rest, sep);
        let jr = join_with(rest, sep);
        lemma_split_leading_sep(jr, sep);
        lemma_split_prepend(parts[0], seq![sep] + jr, sep);
        assert(join_with(parts, sep) =~= parts[0] + (seq![sep] + jr));
        let inner = split_at_seps(seq![sep] + jr, sep);
        assert(inner == seq![Seq::<char>::empty()] + split_at_seps(jr, sep));
        assert(inner[0] =~= Seq::<char>::empty());
        assert(parts[0] + inner[0] =~= parts[0]);
        assert(inner.drop_first() =~= split_at_seps(jr, sep));
        assert(split_at_seps(join_with(parts, sep), sep) =~= seq![parts[0]] + rest);
        assert(seq![parts[0]] + rest =~= parts);
    }
}

/// Pushing a piece extends the views by its view.
pub proof fn lemma_views_push(parts: Seq<Vec<char>>, x: Vec<char>)
    ensures
        views_of(parts.push(x)) =~= views_of(parts).push(x@),
{
}

/// Splits `v` on `sep`, matching `split_at_seps` piece for piece.
pub fn split_char(v: &Vec<char>, sep: char) -> (r: Vec<Vec<char>>)
    ensures
        views_of(r@) == split_at_seps(v@, sep),
{
    let mut done: Vec<Vec<char>> = Vec::new();
    let mut cur: Vec<char> = Vec::new();
    let mut i: usize = 0;
    proof {
        assert(v@.skip(0) =~= v@);
        assert(views_of(done@) =~= Seq::<Seq<char>>::empty());
        lemma_split_len(v@, sep);
        assert(split_at_seps(v@, sep) =~= views_of(done@) + seq![cur@ + split_at_seps(
            v@.skip(0),
            sep,
        )[0]] + split_at_seps(v@.skip(0), sep).drop_first());
    }
    while i < v.len()
        invariant
            0 <= i <= v@.len(),
            split_at_seps(v@, sep) == views_of(done@) + seq![cur@ + split_at_seps(
                v@.skip(i as int),
                sep,
            )[0]] + split_at_seps(v@.skip(i as int), sep).drop_first(),
        decreases v@.len() - i,
    {
        let ghost restseq = v@.skip(i as int);
        let ghost sp = split_at_seps(v@.skip(i as int + 1), sep);
        proof {
            lemma_split_len(v@.skip(i as int + 1), sep);
            assert(restseq.len() > 0);
            assert(restseq[0] == v@[i as int]);
            assert(restseq.drop_first() =~= v@.skip(i as int + 1));
        }
        let c = v[i];
        if c == sep {
            let ghost done0 = done@;
            let ghost cur0 = cur@;
            proof {
                assert(split_at_seps(restseq, sep) == seq![Seq::<char>::empty()] + sp);
                assert(split_at_seps(restseq, sep)[0] =~= Seq::<char>::empty());
                assert(cur0 + split_at_seps(restseq, sep)[0] =~= cur0);
                assert(split_at_seps(restseq, sep).drop_first() =~= sp);
                assert(split_at_seps(v@, sep) =~= views_of(done0) + seq![cur0] + sp);
            }
            done.push(cur);
            cur = Vec::new();
            proof {
                lemma_views_push(done0, done@.last());
                assert(done@ == done0.push(done@.last()));
                assert(done@.last()@ == cur0);
                assert(views_of(done@) =~= views_of(done0).push(cur0));
                assert(cur@ + sp[0] =~= sp[0]);
                assert(seq![sp[0]] + sp.drop_first() =~= sp);
                assert(views_of(done@) + seq![cur@ + sp[0]] + sp.drop_first() =~= views_of(done0)
                    + seq![cur0] + sp);
            }
        } else {
            let ghost cur0 = cur@;
            proof {
                assert(split_at_seps(restseq, sep) == seq![seq![restseq[0]] + sp[0]]
                    + sp.drop_first());
                assert(split_at_seps(restseq, sep)[0] =~= seq![c] + sp[0]);
                assert(split_at_seps(restseq, sep).drop_first() =~= sp.drop_first());
            }
            cur.push(c);
            proof {
                assert(cur@ == cur0.push(c));
                assert(cur@ + sp[0] =~= cur0 + (seq![c] + sp[0]));
                assert(views_of(done@) + seq![cur@ + sp[0]] + sp.drop_first() =~= views_of(done@)
                    + seq![cur0 + split_at_seps(restseq, sep)[0]] + split_at_seps(
                    restseq,
                    sep,
                ).drop_first());
            }
        }
        i = i + 1;
        proof {
            assert(v@.skip(i as int) =~= restseq.drop_first());
        }
    }
    proof {
        assert(v@.skip(i as int) =~= Seq::<char>::empty());
        assert(split_at_seps(v@.skip(i as int), sep) == seq![Seq::<char>::empty()]);
        assert(cur@ + split_at_seps(v@.skip(i as int), sep)[0] =~= cur@);
        assert(split_at_seps(v@.skip(i as int), sep).drop_first() =~= Seq::<Seq<char>>::empty());
        assert(split_at_seps(v@, sep) =~= views_of(done@) + seq![cur@]);
    }
    let ghost done0 = done@;
    done.push(cur);
    proof {
        lemma_views_push(done0, done@.last());
        assert(done@ == done0.push(done@.last()));
        assert(views_of(done@) =~= views_of(done0).push(done@.last()@));
        assert(views_of(done@) =~= split_at_seps(v@, sep));
    }
    done
}

/// Appends the characters of `src` to `dst`.
pub fn push_chars(dst: &mut Vec<char>, src: &Vec<char>)
    ensures
        final(dst)@ == old(dst)@ + src@,
{
    let ghost base = dst@;
    let mut j: usize = 0;
    proof {
        assert(base + src@.subrange(0, 0) =~= base);
    }
    while j < src.len()
        invariant
            0 <= j <= src@.len(),
            dst@ == base + src@.subrange(0, j as int),
        decreases src@.len() - j,
    {
        dst.push(src[j]);
        proof {
            assert(base + src@.subrange(0, j as int + 1) =~= (base + src@.subrange(
                0,
                j as int,
            )).push(src@[j as int]));
        }
        j = j + 1;
    }
    proof {
        assert(src@.subrange(0, src@.len() as int) =~= src@);
    }
}

/// Appends the pieces from `start` on, joined with `sep`.
fn join_from(parts: &Vec<Vec<char>>, start: usize, sep: char, out: &mut Vec<char>)
    requires
        start <= parts@.len(),
    ensures
        final(out)@ == old(out)@ + join_with(views_of(parts@.skip(start as int)), sep),
    decreases parts@.len() - start,
{
    if start >= parts.len() {
        proof {
            assert(parts@.skip(start as int) =~= Seq::<Vec<char>>::empty());
            assert(views_of(parts@.skip(start as int)) =~= Seq::<Seq<char>>::empty());
            assert(out@ + join_with(views_of(parts@.skip(start as int)), sep) =~= out@);
        }
        return ;
    }
    let ghost vs = views_of(parts@.skip(start as int));
    proof {
        assert(vs.len() == parts@.len() - start);
        assert(vs[0] == parts@[start as int]@);
    }
    push_chars(out, &parts[start]);
    if start + 1 < parts.len() {
        out.push(sep);
        join_from(parts, start + 1, sep, out);
        proof {
            assert(vs.drop_first() =~= views_of(parts@.skip(start as int + 1)));
            assert(join_with(vs, sep) == vs[0] + seq![sep] + join_with(vs.drop_first(), sep));
            assert(out@ =~= old(out)@ + join_with(vs, sep));
        }
    } else {
        proof {
            assert(vs.len() == 1);
            assert(join_with(vs, sep) == vs[0]);
        }
    }
}

/// Joins pieces with `sep` between them, matching `join_with`.
pub fn join_char(parts: &Vec<Vec<char>>, sep: char) -> (r: Vec<char>)
    ensures
        r@ == join_with(views_of(parts@), sep),
{
    let mut r: Vec<char> = Vec::new();
    join_from(parts, 0, sep, &mut r);
    proof {
        assert(parts@.skip(0) =~= parts@);
        assert(Seq::<char>::empty() + join_with(views_of(parts@), sep) =~= join_with(
            views_of(parts@),
            sep,
        ));
    }
    r
}

/// Whether `c` is a decimal digit.
pub open spec fn is_digit(c: char) -> bool {
    48 <= c as u32 <= 57
}

/// The numeric value of a digit sequence, most significant digit first.
pub open spec fn digits_val(s: Seq<char>) -> nat
    decreases s.len(),
{
    if s.len() == 0 {
        0
    } else {
        digits_val(s.drop_last()) * 10 + (if s.last() as u32 >= 48 {
            (s.last() as u32 - 48) as nat
        } else {
            0
        })
    }
}

/// The decimal rendering of `n` consists of digits and reads back as `n`.
pub proof fn lemma_decimal_val(n: nat)
    ensures
        decimal_of(n).len() >= 1,
        forall|i: int| 0 <= i < decimal_of(n).len() ==> is_digit(#[trigger] decimal_of(n)[i]),
        digits_val(decimal_of(n)) == n,
    decreases n,
{
    assert('0' as u32 == 48 && '1' as u32 == 49 && '2' as u32 == 50 && '3' as u32 == 51
        && '4' as u32 == 52 && '5' as u32 == 53 && '6' as u32 == 54 && '7' as u32 == 55
        && '8' as u32 == 56 && '9' as u32 == 57);
    let d = decimal_of(n);
    if n < 10 {
        assert(d == seq![digit_char(n as int)]);
        assert(d.len() == 1);
        assert(d.last() == digit_char(n as int));
        assert(d.last() as u32 == 48 + n);
        assert(d.drop_last() =~= Seq::<char>::empty());
        assert(digits_val(d.drop_last()) == 0);
        assert(digits_val(d) == digits_val(d.drop_last()) * 10 + (d.last() as u32 - 48));
        assert(digits_val(d) == n);
    } else {
        lemma_decimal_val(n / 10);
        let p = decimal_of(n / 10);
        assert(d == p.push(digit_char((n % 10) as int)));
        assert(d.drop_last() =~= p);
        assert(d.last() == digit_char((n % 10) as int));
        assert(0 <= n % 10 < 10);
        assert(d.last() as u32 == 48 + (n % 10));
        assert(digits_val(d) == digits_val(p) * 10 + (n % 10));
        assert(digits_val(p) == n / 10);
        vstd::arithmetic::div_mod::lemma_fundamental_div_mod(n as int, 10);
        assert(10 * (n as int / 10) + n as int % 10 == n);
        assert(digits_val(d) == n);
        assert(forall|i: int| 0 <= i < d.len() ==> is_digit(#[trigger] d[i])) by {
            assert(forall|i: int| 0 <= i < p.len() ==> d[i] == p[i]);
            assert(is_digit(d[d.len() - 1]));
        }
    }
}

/// Parses a decimal number; `Some` exactly when the text is one or more
/// digits whose value fits in a `u64`.
pub fn parse_u64(v: &Vec<char>) -> (r: Option<u64>)
    ensures
        r is Some ==> v@.len() >= 1 && (forall|i: int| 0 <= i < v@.len() ==> is_digit(
            #[trigger] v@[i],
        )) && digits_val(v@) == r->0,
        r is None ==> v@.len() == 0 || (exists|i: int|
            0 <= i < v@.len() && !is_digit(#[trigger] v@[i])) || digits_val(v@) > u64::MAX,
{
    if v.len() == 0 {
        return None;
    }
    let mut acc: u64 = 0;
    let mut i: usize = 0;
    while i < v.len()
        invariant
            0 <= i <= v@.len(),
            forall|j: int| 0 <= j < i ==> is_digit(#[trigger] v@[j]),
            acc == digits_val(v@.subrange(0, i as int)),
        decreases v@.len() - i,
    {
        let c = v[i];
        let u = c as u32;
        if u < 48 || u > 57 {
            return None;
        }
        let d: u64 = (u - 48) as u64;
        let ghost pre = v@.subrange(0, i as int);
        let next = match acc.checked_mul(10) {
            Some(m) => m.checked_add(d),
            None => None,
        };
        proof {
            assert(v@.subrange(0, i + 1 as int).drop_last() =~= pre);
            assert(v@.subrange(0, i + 1 as int).last() == v@[i as int]);
            assert(digits_val(v@.subrange(0, i + 1 as int)) == digits_val(pre) * 10 + d);
        }
        match next {
            Some(n) => {
                acc = n;
            },
            None => {
                proof {
                    lemma_digits_val_monotone(v@.subrange(0, i + 1 as int), v@);
                    assert(digits_val(v@) > u64::MAX);
                }
                return None;
            },
        }
        i = i + 1;
    }
    proof {
        assert(v@.subrange(0, v@.len() as int) =~= v@);
    }
    Some(acc)
}

/// A digit sequence is worth at least any of its prefixes.
pub proof fn lemma_digits_val_monotone(p: Seq<char>, s: Seq<char>)
    requires
        p.len() <= s.len(),
        p =~= s.subrange(0, p.len() as int),
    ensures
        digits_val(s) >= digits_val(p),
    decreases s.len() - p.len(),
{
    if p.len() < s.len() {
        let q = s.subrange(0, p.len() as int + 1);
        assert(q.drop_last() =~= p);
        assert(digits_val(q) == digits_val(p) * 10 + (if q.last() as u32 >= 48 {
            (q.last() as u32 - 48) as nat
        } else {
            0
        }));
        assert(digits_val(q) >= digits_val(p));
        lemma_digits_val_monotone(q, s);
    } else {
        assert(p =~= s);
    }
}

/// Splitting and joining again recovers the text split.
pub proof fn lemma_join_split(s: Seq<char>, sep: char)
    ensures
        join_with(split_at_seps(s, sep), sep) == s,
    decreases s.len(),
{
    lemma_split_len(s, sep);
    if s.len() == 0 {
        assert(split_at_seps(s, sep) == seq![Seq::<char>::empty()]);
        assert(join_with(seq![Seq::<char>::empty()], sep) == Seq::<char>::empty());
        assert(s =~= Seq::<char>::empty());
    } else {
        let t = s.drop_first();
        lemma_join_split(t, sep);
        lemma_split_len(t, sep);
        let st = split_at_seps(t, sep);
        if s[0] == sep {
            let parts = seq![Seq::<char>::empty()] + st;
            assert(split_at_seps(s, sep) == parts);
            assert(parts.len() >= 2);
            assert(parts[0] =~= Seq::<char>::empty());
            assert(parts.drop_first() =~= st);
            assert(join_with(parts, sep) == parts[0] + seq![sep] + join_with(st, sep));
            assert(join_with(parts, sep) =~= seq![sep] + t);
            assert(seq![sep] + t =~= s);
        } else {
            let parts = seq![seq![s[0]] + st[0]] + st.drop_first();
            assert(split_at_seps(s, sep) == parts);
            if st.len() == 1 {
                assert(parts.len() == 1);
                assert(join_with(parts, sep) == parts[0]);
                assert(join_with(st, sep) == st[0]);
                assert(st[0] == t);
                assert(parts[0] =~= seq![s[0]] + t);
                assert(seq![s[0]] + t =~= s);
            } else {
                assert(parts.len() >= 2);
                assert(parts.drop_first() =~= st.drop_first());
                assert(join_with(parts, sep) == parts[0] + seq![sep] + join_with(
                    st.drop_first(),
                    sep,
                ));
                assert(join_with(st, sep) == st[0] + seq![sep] + join_with(st.drop_first(), sep));
                assert(st[0] + seq![sep] + join_with(st.drop_first(), sep) == t);
                assert(parts[0] =~= seq![s[0]] + st[0]);
                assert(join_with(parts, sep) =~= seq![s[0]] + (st[0] + seq![sep] + join_with(
                    st.drop_first(),
                    sep,
                )));
                assert(seq![s[0]] + t =~= s);
                assert(join_with(parts, sep) =~= s);
            }
        }
    }
}

} // verus!
