//! Text building blocks: decimal rendering, joining, comparison and search over
//! strings, all stated over sequences of characters.
#[allow(unused_imports)]
use vstd::prelude::*;
#[allow(unused_imports)]
use vstd::string::*;

verus! {

/// `String::push` appends one character.
pub assume_specification[ std::string::String::push ](s: &mut std::string::String, c: char)
    ensures
        final(s)@ == old(s)@.push(c),
;

/// The characters of each string of a sequence.
pub open spec fn strs(v: Seq<String>) -> Seq<Seq<char>> {
    Seq::new(v.len(), |i: int| v[i]@)
}

/// The view of an optional string.
pub open spec fn opt_str(o: Option<String>) -> Option<Seq<char>> {
    match o {
        Some(s) => Some(s@),
        None => None,
    }
}

/// The views of a text or of what is wrong with it.
pub open spec fn result_text(r: Result<String, String>) -> Result<Seq<char>, Seq<char>> {
    match r {
        Ok(s) => Ok(s@),
        Err(e) => Err(e@),
    }
}

/// The view of an optional string slice.
pub open spec fn opt_slice(o: Option<&str>) -> Option<Seq<char>> {
    match o {
        Some(s) => Some(s@),
        None => None,
    }
}

/// The parts in order with `sep` between neighbours.
pub open spec fn joined(parts: Seq<Seq<char>>, sep: Seq<char>) -> Seq<char>
    decreases parts.len(),
{
    if parts.len() == 0 {
        Seq::empty()
    } else if parts.len() == 1 {
        parts[0]
    } else {
        joined(parts.drop_last(), sep) + sep + parts.last()
    }
}

/// The decimal digit `d` as a character.
pub open spec fn digit(d: nat) -> char {
    if d == 0 {
        '0'
    } else if d == 1 {
        '1'
    } else if d == 2 {
        '2'
    } else if d == 3 {
        '3'
    } else if d == 4 {
        '4'
    } else if d == 5 {
        '5'
    } else if d == 6 {
        '6'
    } else if d == 7 {
        '7'
    } else if d == 8 {
        '8'
    } else {
        '9'
    }
}

/// The decimal numeral of `n`, without leading zeros.
pub open spec fn dec(n: nat) -> Seq<char>
    decreases n,
{
    if n < 10 {
        seq![digit(n)]
    } else {
        dec(n / 10).push(digit(n % 10))
    }
}

/// The decimal numeral of `i`, with a leading minus sign when negative.
pub open spec fn dec_int(i: int) -> Seq<char> {
    if i < 0 {
        seq!['-'] + dec((-i) as nat)
    } else {
        dec(i as nat)
    }
}

/// Lexicographic order by character, a proper prefix first.
pub open spec fn chars_lt(a: Seq<char>, b: Seq<char>) -> bool
    decreases a.len(),
{
    if b.len() == 0 {
        false
    } else if a.len() == 0 {
        true
    } else if a[0] == b[0] {
        chars_lt(a.drop_first(), b.drop_first())
    } else {
        a[0] < b[0]
    }
}

fn digit_char(d: u128) -> (c: char)
    requires
        d < 10,
    ensures
        c == digit(d as nat),
{
    match d {
        0 => '0',
        1 => '1',
        2 => '2',
        3 => '3',
        4 => '4',
        5 => '5',
        6 => '6',
        7 => '7',
        8 => '8',
        _ => '9',
    }
}

/// The decimal numeral of `n`.
pub fn dec_u64(n: u64) -> (s: String)
    ensures
        s@ == dec(n as nat),
{
    dec_u128(n as u128)
}

/// The decimal numeral of `n`.
pub fn dec_u128(n: u128) -> (s: String)
    ensures
        s@ == dec(n as nat),
    decreases n,
{
    if n < 10 {
        let mut s = String::new();
        s.push(digit_char(n));
        assert(s@ == seq![digit(n as nat)]);
        s
    } else {
        let mut s = dec_u128(n / 10);
        s.push(digit_char(n % 10));
        s
    }
}

/// The decimal numeral of `n`.
pub fn dec_usize(n: usize) -> (s: String)
    ensures
        s@ == dec(n as nat),
{
    dec_u64(n as u64)
}

/// The decimal numeral of `i`.
pub fn dec_i64(i: i64) -> (s: String)
    ensures
        s@ == dec_int(i as int),
{
    if i < 0 {
        let mut s = String::new();
        s.push('-');
        let magnitude: u64 = if i == i64::MIN {
            0x8000_0000_0000_0000
        } else {
            (-i) as u64
        };
        let tail = dec_u64(magnitude);
        s.append(tail.as_str());
        assert(s@ == seq!['-'] + dec((-i) as nat));
        s
    } else {
        dec_u64(i as u64)
    }
}

/// Joins `parts` with `sep` between neighbours.
pub fn join(parts: &Vec<String>, sep: &str) -> (s: String)
    ensures
        s@ == joined(strs(parts@), sep@),
{
    let n: usize = parts.len();
    if n == 0 {
        return String::new();
    }
    let mut s = parts[0].clone();
    let mut i: usize = 1;
    assert(strs(parts@).take(1).len() == 1);
    while i < n
        invariant
            1 <= i <= n,
            n == parts@.len(),
            s@ == joined(strs(parts@).take(i as int), sep@),
        decreases n - i,
    {
        let ghost next = strs(parts@).take(i as int + 1);
        assert(next.drop_last() =~= strs(parts@).take(i as int));
        s.append(sep);
        s.append(parts[i].as_str());
        i = i + 1;
    }
    assert(strs(parts@).take(n as int) =~= strs(parts@));
    s
}

/// The characters of a string as a vector.
pub fn chars_of(s: &str) -> (v: Vec<char>)
    ensures
        v@ == s@,
{
    let mut v: Vec<char> = Vec::new();
    for c in it: s.chars()
        invariant
            it.seq() == s@,
            v@ == s@.take(it.index() as int),
    {
        assert(s@.take(it.index() as int + 1) =~= s@.take(it.index() as int).push(c));
        v.push(c);
    }
    assert(s@.take(s@.len() as int) =~= s@);
    v
}

/// Whether two strings hold the same characters.
pub fn same(a: &str, b: &str) -> (r: bool)
    ensures
        r == (a@ == b@),
{
    a.to_owned() == b.to_owned()
}

/// Whether `a` comes before `b` in lexicographic order.
pub fn before(a: &str, b: &str) -> (r: bool)
    ensures
        r == chars_lt(a@, b@),
{
    let x = chars_of(a);
    let y = chars_of(b);
    let mut i: usize = 0;
    assert(x@.skip(0) =~= x@);
    assert(y@.skip(0) =~= y@);
    while i < x.len() && i < y.len() && x[i] == y[i]
        invariant
            i <= x@.len(),
            i <= y@.len(),
            chars_lt(a@, b@) == chars_lt(x@.skip(i as int), y@.skip(i as int)),
        decreases x@.len() - i,
    {
        assert(x@.skip(i as int).drop_first() =~= x@.skip(i as int + 1));
        assert(y@.skip(i as int).drop_first() =~= y@.skip(i as int + 1));
        i = i + 1;
    }
    if i == y.len() {
        false
    } else if i == x.len() {
        true
    } else {
        x[i] < y[i]
    }
}

/// The order on strings is irreflexive.
pub proof fn lemma_chars_lt_irreflexive(a: Seq<char>)
    ensures
        !chars_lt(a, a),
    decreases a.len(),
{
    if a.len() > 0 {
        lemma_chars_lt_irreflexive(a.drop_first());
    }
}

/// The order on strings is transitive.
pub proof fn lemma_chars_lt_transitive(a: Seq<char>, b: Seq<char>, c: Seq<char>)
    requires
        chars_lt(a, b),
        chars_lt(b, c),
    ensures
        chars_lt(a, c),
    decreases a.len(),
{
    if a.len() > 0 && a[0] == b[0] && b[0] == c[0] {
        lemma_chars_lt_transitive(a.drop_first(), b.drop_first(), c.drop_first());
    }
}

/// The order on strings is total.
pub proof fn lemma_chars_lt_total(a: Seq<char>, b: Seq<char>)
    ensures
        a == b || chars_lt(a, b) || chars_lt(b, a),
    decreases a.len(),
{
    if a.len() > 0 && b.len() > 0 && a[0] == b[0] {
        lemma_chars_lt_total(a.drop_first(), b.drop_first());
        if a.drop_first() == b.drop_first() {
            assert(a =~= seq![a[0]] + a.drop_first());
            assert(b =~= seq![b[0]] + b.drop_first());
        }
    } else if a.len() == 0 && b.len() == 0 {
        assert(a =~= b);
    }
}

/// The two parts in order.
pub fn cat2(a: &str, b: &str) -> (s: String)
    ensures
        s@ == a@ + b@,
{
    let mut s: String = a.to_owned();
    s.append(b);
    s
}

/// The three parts in order.
pub fn cat3(a: &str, b: &str, c: &str) -> (s: String)
    ensures
        s@ == a@ + b@ + c@,
{
    let mut s: String = a.to_owned();
    s.append(b);
    s.append(c);
    s
}

/// The four parts in order.
pub fn cat4(a: &str, b: &str, c: &str, d: &str) -> (s: String)
    ensures
        s@ == a@ + b@ + c@ + d@,
{
    let mut s: String = a.to_owned();
    s.append(b);
    s.append(c);
    s.append(d);
    s
}

/// The five parts in order.
pub fn cat5(a: &str, b: &str, c: &str, d: &str, e: &str) -> (s: String)
    ensures
        s@ == a@ + b@ + c@ + d@ + e@,
{
    let mut s: String = a.to_owned();
    s.append(b);
    s.append(c);
    s.append(d);
    s.append(e);
    s
}

/// The six parts in order.
pub fn cat6(a: &str, b: &str, c: &str, d: &str, e: &str, f: &str) -> (s: String)
    ensures
        s@ == a@ + b@ + c@ + d@ + e@ + f@,
{
    let mut s: String = a.to_owned();
    s.append(b);
    s.append(c);
    s.append(d);
    s.append(e);
    s.append(f);
    s
}

/// The seven parts in order.
pub fn cat7(a: &str, b: &str, c: &str, d: &str, e: &str, f: &str, g: &str) -> (s: String)
    ensures
        s@ == a@ + b@ + c@ + d@ + e@ + f@ + g@,
{
    let mut s: String = a.to_owned();
    s.append(b);
    s.append(c);
    s.append(d);
    s.append(e);
    s.append(f);
    s.append(g);
    s
}

/// The eight parts in order.
pub fn cat8(a: &str, b: &str, c: &str, d: &str, e: &str, f: &str, g: &str, h: &str) -> (s: String)
    ensures
        s@ == a@ + b@ + c@ + d@ + e@ + f@ + g@ + h@,
{
    let mut s: String = a.to_owned();
    s.append(b);
    s.append(c);
    s.append(d);
    s.append(e);
    s.append(f);
    s.append(g);
    s.append(h);
    s
}

/// The nine parts in order.
pub fn cat9(a: &str, b: &str, c: &str, d: &str, e: &str, f: &str, g: &str, h: &str, i: &str) -> (s: String)
    ensures
        s@ == a@ + b@ + c@ + d@ + e@ + f@ + g@ + h@ + i@,
{
    let mut s: String = a.to_owned();
    s.append(b);
    s.append(c);
    s.append(d);
    s.append(e);
    s.append(f);
    s.append(g);
    s.append(h);
    s.append(i);
    s
}

/// The eleven parts in order.
pub fn cat11(a: &str, b: &str, c: &str, d: &str, e: &str, f: &str, g: &str, h: &str, i: &str, j: &str, k: &str) -> (s: String)
    ensures
        s@ == a@ + b@ + c@ + d@ + e@ + f@ + g@ + h@ + i@ + j@ + k@,
{
    let mut s: String = a.to_owned();
    s.append(b);
    s.append(c);
    s.append(d);
    s.append(e);
    s.append(f);
    s.append(g);
    s.append(h);
    s.append(i);
    s.append(j);
    s.append(k);
    s
}

/// The twelve parts in order.
pub fn cat12(a: &str, b: &str, c: &str, d: &str, e: &str, f: &str, g: &str, h: &str, i: &str, j: &str, k: &str, l: &str) -> (s: String)
    ensures
        s@ == a@ + b@ + c@ + d@ + e@ + f@ + g@ + h@ + i@ + j@ + k@ + l@,
{
    let mut s: String = a.to_owned();
    s.append(b);
    s.append(c);
    s.append(d);
    s.append(e);
    s.append(f);
    s.append(g);
    s.append(h);
    s.append(i);
    s.append(j);
    s.append(k);
    s.append(l);
    s
}

/// The ASCII lower-case form of a character.
pub open spec fn lower_char(c: char) -> char {
    if 'A' <= c && c <= 'Z' {
        ((c as u32 + 32) as u8) as char
    } else {
        c
    }
}

/// The text with ASCII letters in lower case.
pub open spec fn lowered(s: Seq<char>) -> Seq<char> {
    Seq::new(s.len(), |i: int| lower_char(s[i]))
}

/// The text with ASCII letters in lower case.
pub fn lower(s: &str) -> (r: String)
    ensures
        r@ == lowered(s@),
{
    let v = chars_of(s);
    let mut r = String::new();
    let mut i: usize = 0;
    while i < v.len()
        invariant
            i <= v@.len(),
            v@ == s@,
            r@ == lowered(s@).take(i as int),
        decreases v@.len() - i,
    {
        let c = v[i];
        let d: char = if 'A' <= c && c <= 'Z' {
            ((c as u32 + 32) as u8) as char
        } else {
            c
        };
        assert(lowered(s@).take(i as int + 1) =~= lowered(s@).take(i as int).push(lowered(s@)[i as int]));
        r.push(d);
        i = i + 1;
    }
    assert(lowered(s@).take(v@.len() as int) =~= lowered(s@));
    r
}

/// The value of a decimal digit.
pub open spec fn digit_value(c: char) -> Option<nat> {
    if '0' <= c && c <= '9' {
        Some((c as int - '0' as int) as nat)
    } else {
        None
    }
}

/// The number a sequence of decimal digits stands for; none where another
/// character occurs.
pub open spec fn digits_value(s: Seq<char>) -> Option<nat>
    decreases s.len(),
{
    if s.len() == 0 {
        Some(0)
    } else {
        match (digits_value(s.drop_last()), digit_value(s.last())) {
            (Some(n), Some(d)) => Some(n * 10 + d),
            _ => None,
        }
    }
}

/// The signed 64-bit integer a text stands for: an optional sign, then digits.
pub open spec fn int64_value(s: Seq<char>) -> Option<int> {
    let signed = s.len() > 0 && (s[0] == '-' || s[0] == '+');
    let body = if signed {
        s.skip(1)
    } else {
        s
    };
    match digits_value(body) {
        Some(n) => {
            let v = if signed && s[0] == '-' {
                -(n as int)
            } else {
                n as int
            };
            if body.len() > 0 && i64::MIN <= v <= i64::MAX {
                Some(v)
            } else {
                None
            }
        },
        None => None,
    }
}

/// More digits never make the number smaller.
proof fn lemma_digits_grow(s: Seq<char>, i: int)
    requires
        0 <= i <= s.len(),
        digits_value(s) is Some,
    ensures
        digits_value(s.take(i)) is Some,
        digits_value(s.take(i))->0 <= digits_value(s)->0,
    decreases s.len(),
{
    if i < s.len() {
        lemma_digits_grow(s.drop_last(), i);
        assert(s.drop_last().take(i) =~= s.take(i));
    } else {
        assert(s.take(i) =~= s);
    }
}

/// The signed 64-bit integer a text stands for.
pub fn parse_i64(s: &str) -> (r: Option<i64>)
    ensures
        r is Some <==> int64_value(s@) is Some,
        r matches Some(v) ==> int64_value(s@) == Some(v as int),
{
    let v = chars_of(s);
    let n: usize = v.len();
    let signed = n > 0 && (v[0] == '-' || v[0] == '+');
    let negative = n > 0 && v[0] == '-';
    let start: usize = if signed {
        1
    } else {
        0
    };
    let ghost body = if signed {
        s@.skip(1)
    } else {
        s@
    };
    assert(body == v@.skip(start as int)) by {
        assert(v@.skip(0) =~= v@);
    }
    if start == n {
        return None;
    }
    let mut total: i128 = 0;
    let mut i: usize = start;
    assert(body.take(0) =~= Seq::<char>::empty());
    while i < n
        invariant
            start <= i <= n,
            n == v@.len(),
            body == v@.skip(start as int),
            0 <= total <= 0x8000_0000_0000_0000,
            digits_value(body.take(i - start)) == Some(total as nat),
            int64_value(s@) is Some ==> digits_value(body) is Some && digits_value(body)->0
                <= 0x8000_0000_0000_0000,
        decreases n - i,
    {
        let c = v[i];
        let ghost next = body.take(i - start + 1);
        assert(next.drop_last() =~= body.take(i - start));
        assert(next.last() == c);
        proof {
            if digits_value(body) is Some {
                lemma_digits_grow(body, i - start + 1);
            }
        }
        if !('0' <= c && c <= '9') {
            return None;
        }
        let d: i128 = (c as u32 - '0' as u32) as i128;
        total = total * 10 + d;
        if total > 0x8000_0000_0000_0000 {
            return None;
        }
        i = i + 1;
    }
    assert(body.take(n - start) =~= body);
    let value: i128 = if negative {
        -total
    } else {
        total
    };
    if value > 0x7fff_ffff_ffff_ffff {
        return None;
    }
    Some(value as i64)
}

/// The text with every single quote doubled.
pub open spec fn doubled(s: Seq<char>) -> Seq<char>
    decreases s.len(),
{
    if s.len() == 0 {
        Seq::empty()
    } else if s.last() == '\'' {
        doubled(s.drop_last()).push('\'').push('\'')
    } else {
        doubled(s.drop_last()).push(s.last())
    }
}

/// The text with every single quote doubled.
pub fn double_quotes(s: &str) -> (r: String)
    ensures
        r@ == doubled(s@),
{
    let v = chars_of(s);
    let mut r = String::new();
    let mut i: usize = 0;
    while i < v.len()
        invariant
            i <= v@.len(),
            r@ == doubled(v@.take(i as int)),
        decreases v@.len() - i,
    {
        assert(v@.take(i as int + 1).drop_last() =~= v@.take(i as int));
        let c = v[i];
        if c == '\'' {
            r.push('\'');
        }
        r.push(c);
        i = i + 1;
    }
    assert(v@.take(v@.len() as int) =~= v@);
    r
}

/// Reads a quoted literal's content from `s` at `i`, just behind the opening
/// quote: two quotes stand for one, a single quote ends the literal. Gives the
/// content and the position of the closing quote.
pub open spec fn read_literal(s: Seq<char>, i: int) -> Option<(Seq<char>, int)>
    decreases s.len() - i,
{
    if i < 0 || i >= s.len() {
        None
    } else if s[i] != '\'' {
        match read_literal(s, i + 1) {
            Some((rest, end)) => Some((seq![s[i]] + rest, end)),
            None => None,
        }
    } else if i + 1 < s.len() && s[i + 1] == '\'' {
        match read_literal(s, i + 2) {
            Some((rest, end)) => Some((seq!['\''] + rest, end)),
            None => None,
        }
    } else {
        Some((Seq::empty(), i))
    }
}

/// Doubling distributes over concatenation.
proof fn lemma_doubled_concat(a: Seq<char>, b: Seq<char>)
    ensures
        doubled(a + b) == doubled(a) + doubled(b),
    decreases b.len(),
{
    if b.len() == 0 {
        assert(a + b =~= a);
        assert(doubled(a) + doubled(b) =~= doubled(a));
    } else {
        lemma_doubled_concat(a, b.drop_last());
        assert((a + b).drop_last() =~= a + b.drop_last());
        assert((a + b).last() == b.last());
        assert(doubled(a + b) =~= doubled(a) + doubled(b));
    }
}

/// A literal made by doubling the quotes of `s` reads back as `s`, and ends at
/// its own closing quote: nothing inside `s` can end it sooner. The text before
/// it does not matter, and what follows must not continue with a quote.
pub proof fn law_quoted_literal_is_inert(pre: Seq<char>, s: Seq<char>, post: Seq<char>)
    requires
        post.len() == 0 || post[0] != '\'',
    ensures
        read_literal(pre + doubled(s) + seq!['\''] + post, pre.len() as int) == Some(
            (s, (pre.len() + doubled(s).len()) as int),
        ),
    decreases s.len(),
{
    let whole = pre + doubled(s) + seq!['\''] + post;
    if s.len() == 0 {
        let p = pre.len() as int;
        assert(whole[p] == '\'');
        if post.len() > 0 {
            assert(whole[p + 1] == post[0]);
        }
        assert(Seq::<char>::empty() =~= s);
    } else {
        let head = s.take(1);
        let tail = s.skip(1);
        assert(s =~= head + tail);
        lemma_doubled_concat(head, tail);
        assert(head.drop_last() =~= Seq::<char>::empty());
        assert(doubled(Seq::<char>::empty()) =~= Seq::<char>::empty());
        if s[0] == '\'' {
            assert(doubled(head) =~= seq!['\'', '\'']);
        } else {
            assert(doubled(head) =~= seq![s[0]]);
        }
        let pre2 = pre + doubled(head);
        law_quoted_literal_is_inert(pre2, tail, post);
        assert(pre2 + doubled(tail) + seq!['\''] + post =~= whole);
        assert(whole[pre.len() as int] == s[0]);
        if s[0] == '\'' {
            assert(whole[pre.len() as int + 1] == '\'');
            assert(seq!['\''] + tail =~= s);
        } else {
            assert(seq![s[0]] + tail =~= s);
        }
    }
}

/// Whether a character may start an identifier.
pub open spec fn ident_start(c: char) -> bool {
    ('a' <= c && c <= 'z') || ('A' <= c && c <= 'Z')
}

/// Whether a character may continue an identifier.
pub open spec fn ident_part(c: char) -> bool {
    ident_start(c) || ('0' <= c && c <= '9') || c == '_'
}

/// An identifier: a letter, then letters, digits and underscores, at most `max`
/// characters in all.
pub open spec fn identifier(s: Seq<char>, max: int) -> bool {
    &&& 0 < s.len() <= max
    &&& ident_start(s[0])
    &&& forall|i: int| 0 <= i < s.len() ==> ident_part(#[trigger] s[i])
}

/// Whether `s` is an identifier of at most `max` characters.
pub fn is_valid_identifier(s: &str, max: usize) -> (r: bool)
    ensures
        r == identifier(s@, max as int),
{
    let v = chars_of(s);
    if v.len() == 0 || v.len() > max {
        return false;
    }
    let first = v[0];
    if !(('a' <= first && first <= 'z') || ('A' <= first && first <= 'Z')) {
        return false;
    }
    let mut i: usize = 0;
    while i < v.len()
        invariant
            i <= v@.len(),
            v@ == s@,
            forall|k: int| 0 <= k < i ==> ident_part(#[trigger] v@[k]),
        decreases v@.len() - i,
    {
        let c = v[i];
        if !(('a' <= c && c <= 'z') || ('A' <= c && c <= 'Z') || ('0' <= c && c <= '9') || c == '_')
        {
            assert(!ident_part(s@[i as int]));
            return false;
        }
        i = i + 1;
    }
    true
}

/// Whether a character is white space.
pub open spec fn white(c: char) -> bool {
    let n = c as u32;
    (9 <= n && n <= 13) || n == 0x20 || n == 0x85 || n == 0xa0 || n == 0x1680 || (0x2000 <= n && n
        <= 0x200a) || n == 0x2028 || n == 0x2029 || n == 0x202f || n == 0x205f || n == 0x3000
}

/// The text holds nothing but white space.
pub open spec fn blank(s: Seq<char>) -> bool {
    forall|i: int| 0 <= i < s.len() ==> white(#[trigger] s[i])
}

/// Whether the text holds nothing but white space.
pub fn is_blank(s: &str) -> (r: bool)
    ensures
        r == blank(s@),
{
    let v = chars_of(s);
    let mut i: usize = 0;
    while i < v.len()
        invariant
            i <= v@.len(),
            v@ == s@,
            forall|k: int| 0 <= k < i ==> white(#[trigger] v@[k]),
        decreases v@.len() - i,
    {
        let n: u32 = v[i] as u32;
        let is_white = (9 <= n && n <= 13) || n == 0x20 || n == 0x85 || n == 0xa0 || n == 0x1680 || (
        0x2000 <= n && n <= 0x200a) || n == 0x2028 || n == 0x2029 || n == 0x202f || n == 0x205f || n
            == 0x3000;
        if !is_white {
            assert(!white(s@[i as int]));
            return false;
        }
        i = i + 1;
    }
    true
}

} // verus!
