//! Strings as sequences of characters: the conversions and searches that the other modules share.
use vstd::prelude::*;

verus! {

/// `String::push` appends one character.
pub assume_specification[ String::push ](s: &mut String, c: char)
    ensures
        final(s)@ == old(s)@.push(c),
;

/// What `str::to_uppercase` gives: the Unicode upper case of a text.
pub uninterp spec fn upper(s: Seq<char>) -> Seq<char>;

/// `str::to_uppercase` depends on the text alone; its Unicode tables are not written out here.
pub assume_specification[ str::to_uppercase ](s: &str) -> (r: String)
    ensures
        r@ == upper(s@),
;

/// What `str::to_lowercase` makes of a text.
pub uninterp spec fn lower(s: Seq<char>) -> Seq<char>;

/// `str::to_lowercase` depends on the text alone; its Unicode tables are not written out here.
pub assume_specification[ str::to_lowercase ](s: &str) -> (r: String)
    ensures
        r@ == lower(s@),
;

/// What `char::is_alphabetic` says of a character.
pub uninterp spec fn alphabetic(c: char) -> bool;

/// `char::is_alphabetic` depends on the character alone; its Unicode tables are not written out
/// here.
pub assume_specification[ char::is_alphabetic ](c: char) -> (r: bool)
    ensures
        r == alphabetic(c),
;

/// Whether a character is white space, as Unicode has it.
pub open spec fn is_white(c: char) -> bool {
    ||| '\u{9}' <= c <= '\u{d}'
    ||| c == ' '
    ||| c == '\u{85}'
    ||| c == '\u{a0}'
    ||| c == '\u{1680}'
    ||| '\u{2000}' <= c <= '\u{200a}'
    ||| c == '\u{2028}'
    ||| c == '\u{2029}'
    ||| c == '\u{202f}'
    ||| c == '\u{205f}'
    ||| c == '\u{3000}'
}

/// Whether a character is white space.
pub fn white(c: char) -> (r: bool)
    ensures
        r == is_white(c),
{
    ('\u{9}' <= c && c <= '\u{d}') || c == ' ' || c == '\u{85}' || c == '\u{a0}' || c == '\u{1680}' || (
    '\u{2000}' <= c && c <= '\u{200a}') || c == '\u{2028}' || c == '\u{2029}' || c == '\u{202f}' || c
        == '\u{205f}' || c == '\u{3000}'
}

/// A text without white space at its start.
pub open spec fn trim_start_white(s: Seq<char>) -> Seq<char>
    decreases s.len(),
{
    if s.len() > 0 && is_white(s[0]) {
        trim_start_white(s.skip(1))
    } else {
        s
    }
}

/// A text without white space at its end.
pub open spec fn trim_end_white(s: Seq<char>) -> Seq<char>
    decreases s.len(),
{
    if s.len() > 0 && is_white(s.last()) {
        trim_end_white(s.drop_last())
    } else {
        s
    }
}

/// A text without white space at its ends.
pub open spec fn trimmed(s: Seq<char>) -> Seq<char> {
    trim_end_white(trim_start_white(s))
}

/// A text without white space at its ends.
pub fn trim_text(s: &str) -> (r: String)
    ensures
        r@ == trimmed(s@),
{
    let chars: Vec<char> = chars_of(s);
    let mut a: usize = 0;
    assert(chars@.skip(0) == chars@);
    while a < chars.len() && white(chars[a])
        invariant
            a <= chars.len(),
            trim_start_white(chars@) == trim_start_white(chars@.skip(a as int)),
        decreases chars.len() - a,
    {
        assert(chars@.skip(a as int).skip(1) == chars@.skip(a + 1));
        a = a + 1;
    }
    let mut b: usize = chars.len();
    assert(chars@.skip(a as int) == chars@.subrange(a as int, b as int));
    while b > a && white(chars[b - 1])
        invariant
            a <= b <= chars.len(),
            trim_end_white(chars@.skip(a as int)) == trim_end_white(
                chars@.subrange(a as int, b as int),
            ),
        decreases b,
    {
        assert(chars@.subrange(a as int, b as int).drop_last() == chars@.subrange(a as int, b - 1));
        b = b - 1;
    }
    slice_string(&chars, a, b)
}

/// Whether two texts have the same characters.
pub(crate) fn same_text(a: &str, b: &str) -> (r: bool)
    ensures
        r == (a@ == b@),
{
    let x: Vec<char> = chars_of(a);
    let y: Vec<char> = chars_of(b);
    if x.len() != y.len() {
        return false;
    }
    let mut i: usize = 0;
    while i < x.len()
        invariant
            i <= x.len(),
            x.len() == y.len(),
            x@ == a@,
            y@ == b@,
            x@.take(i as int) == y@.take(i as int),
        decreases x.len() - i,
    {
        if x[i] != y[i] {
            assert(a@[i as int] != b@[i as int]);
            return false;
        }
        assert(x@.take(i + 1) == x@.take(i as int).push(x@[i as int]));
        assert(y@.take(i + 1) == y@.take(i as int).push(y@[i as int]));
        i = i + 1;
    }
    assert(x@.take(i as int) == x@ && y@.take(i as int) == y@);
    true
}

/// The characters of a string, in order.
pub fn chars_of(s: &str) -> (r: Vec<char>)
    ensures
        r@ == s@,
{
    let mut out: Vec<char> = Vec::new();
    for c in it: s.chars()
        invariant
            out@ == it.seq().take(it.index() as int),
            it.seq() == s@,
    {
        out.push(c);
    }
    out
}

/// The string made of the characters `chars[from..to]`.
pub fn slice_string(chars: &Vec<char>, from: usize, to: usize) -> (r: String)
    requires
        from <= to <= chars@.len(),
    ensures
        r@ == chars@.subrange(from as int, to as int),
{
    let mut out: String = String::new();
    let mut i: usize = from;
    while i < to
        invariant
            from <= i <= to <= chars@.len(),
            out@ == chars@.subrange(from as int, i as int),
        decreases to - i,
    {
        out.push(chars[i]);
        i = i + 1;
        assert(chars@.subrange(from as int, i as int) == chars@.subrange(from as int, i - 1).push(chars@[i - 1]));
    }
    out
}

/// The first position at or behind `from` where `c` stands.
pub open spec fn find_char(s: Seq<char>, c: char, from: int) -> Option<int>
    decreases s.len() - from,
{
    if 0 <= from < s.len() {
        if s[from] == c {
            Some(from)
        } else {
            find_char(s, c, from + 1)
        }
    } else {
        None
    }
}

/// The exact value of an optional position.
pub open spec fn opt_pos(o: Option<usize>) -> Option<int> {
    match o {
        Some(p) => Some(p as int),
        None => None,
    }
}

/// The first position at or behind `from` where `c` stands.
pub fn position_of(s: &Vec<char>, c: char, from: usize) -> (r: Option<usize>)
    ensures
        opt_pos(r) == find_char(s@, c, from as int),
        r is Some ==> from <= r->0 < s.len(),
{
    let mut i: usize = from;
    while i < s.len()
        invariant
            from <= i,
            i <= s.len() || i == from,
            find_char(s@, c, from as int) == find_char(s@, c, i as int),
        decreases s.len() - i,
    {
        if s[i] == c {
            return Some(i);
        }
        i = i + 1;
    }
    None
}

/// The texts of a list of strings.
pub open spec fn texts(v: Seq<String>) -> Seq<Seq<char>> {
    Seq::new(v.len(), |i: int| v[i]@)
}

/// Whether a list of strings holds a text.
pub fn contains_text(v: &Vec<String>, s: &str) -> (r: bool)
    ensures
        r == texts(v@).contains(s@),
{
    let mut i: usize = 0;
    while i < v.len()
        invariant
            i <= v.len(),
            forall|k: int| 0 <= k < i ==> texts(v@)[k] != s@,
        decreases v.len() - i,
    {
        if same_text(v[i].as_str(), s) {
            assert(texts(v@)[i as int] == s@);
            return true;
        }
        i = i + 1;
    }
    false
}

/// Appends a text to a list of strings unless the list holds it; says whether it did.
pub fn push_unique(v: &mut Vec<String>, s: &str) -> (r: bool)
    ensures
        r == !texts(old(v)@).contains(s@),
        texts(final(v)@) == (if r {
            texts(old(v)@).push(s@)
        } else {
            texts(old(v)@)
        }),
        texts(old(v)@).no_duplicates() ==> texts(final(v)@).no_duplicates(),
        texts(final(v)@).to_set() == texts(old(v)@).to_set().insert(s@),
{
    let ghost before = texts(v@);
    if contains_text(v, s) {
        assert(before.to_set() == before.to_set().insert(s@));
        return false;
    }
    v.push(s.to_string());
    let ghost after = texts(v@);
    assert(after == before.push(s@));
    proof {
        before.lemma_push_to_set_commute(s@);
    }
    true
}

/// A list of strings without repetitions: the first occurrence of each text is kept.
pub fn unique_texts(v: &Vec<String>) -> (r: Vec<String>)
    ensures
        texts(r@).no_duplicates(),
        texts(r@).to_set() == texts(v@).to_set(),
{
    let mut out: Vec<String> = Vec::new();
    let mut i: usize = 0;
    assert(texts(v@).take(0).to_set() =~= texts(out@).to_set());
    while i < v.len()
        invariant
            i <= v.len(),
            texts(out@).no_duplicates(),
            texts(out@).to_set() == texts(v@).take(i as int).to_set(),
        decreases v.len() - i,
    {
        push_unique(&mut out, v[i].as_str());
        assert(texts(v@).take(i + 1) == texts(v@).take(i as int).push(texts(v@)[i as int]));
        proof {
            texts(v@).take(i as int).lemma_push_to_set_commute(texts(v@)[i as int]);
        }
        i = i + 1;
    }
    assert(texts(v@).take(i as int) == texts(v@));
    out
}

/// A list of strings without the text `s`.
pub fn without_text(v: &Vec<String>, s: &str) -> (r: Vec<String>)
    ensures
        texts(v@).no_duplicates() ==> texts(r@).no_duplicates(),
        texts(r@).to_set() == texts(v@).to_set().remove(s@),
{
    let mut out: Vec<String> = Vec::new();
    let mut i: usize = 0;
    assert(texts(out@).to_set() =~= texts(v@).take(0).to_set().remove(s@));
    while i < v.len()
        invariant
            i <= v.len(),
            texts(v@).no_duplicates() ==> texts(out@).no_duplicates(),
            texts(out@).to_set() == texts(v@).take(i as int).to_set().remove(s@),
        decreases v.len() - i,
    {
        let ghost head = texts(v@).take(i as int);
        let ghost x = texts(v@)[i as int];
        let ghost before = texts(out@);
        assert(texts(v@).take(i + 1) == head.push(x));
        proof {
            head.lemma_push_to_set_commute(x);
        }
        if !same_text(v[i].as_str(), s) {
            out.push(v[i].clone());
            assert(texts(out@) == before.push(x));
            proof {
                before.lemma_push_to_set_commute(x);
                if texts(v@).no_duplicates() && before.contains(x) {
                    assert(before.to_set().contains(x));
                    assert(head.contains(x));
                    let k = head.index_of(x);
                    assert(texts(v@)[k] == x);
                }
            }
            assert(texts(out@).to_set() =~= head.push(x).to_set().remove(s@));
        } else {
            assert(texts(out@).to_set() =~= head.push(x).to_set().remove(s@));
        }
        i = i + 1;
    }
    assert(texts(v@).take(i as int) == texts(v@));
    out
}

/// A text without the characters `c`.
pub open spec fn without_char(s: Seq<char>, c: char) -> Seq<char>
    decreases s.len(),
{
    if s.len() == 0 {
        s
    } else if s.last() == c {
        without_char(s.drop_last(), c)
    } else {
        without_char(s.drop_last(), c).push(s.last())
    }
}

/// A text without the characters `c`.
pub fn remove_char(s: &Vec<char>, c: char) -> (r: String)
    ensures
        r@ == without_char(s@, c),
{
    let mut out: String = String::new();
    let mut i: usize = 0;
    while i < s.len()
        invariant
            i <= s.len(),
            out@ == without_char(s@.take(i as int), c),
        decreases s.len() - i,
    {
        assert(s@.take(i + 1).drop_last() == s@.take(i as int));
        if s[i] != c {
            out.push(s[i]);
        }
        i = i + 1;
    }
    assert(s@.take(i as int) == s@);
    out
}

/// A text without the characters `c` at its start.
pub open spec fn trim_start_char(s: Seq<char>, c: char) -> Seq<char>
    decreases s.len(),
{
    if s.len() > 0 && s[0] == c {
        trim_start_char(s.skip(1), c)
    } else {
        s
    }
}

/// A text without the characters `c` at its end.
pub open spec fn trim_end_char(s: Seq<char>, c: char) -> Seq<char>
    decreases s.len(),
{
    if s.len() > 0 && s.last() == c {
        trim_end_char(s.drop_last(), c)
    } else {
        s
    }
}

/// A text without the characters `c` at either end.
pub open spec fn trim_char(s: Seq<char>, c: char) -> Seq<char> {
    trim_end_char(trim_start_char(s, c), c)
}

/// `chars[from..to]` without the characters `c` at either end.
pub fn trim_char_of(s: &Vec<char>, from: usize, to: usize, c: char) -> (r: String)
    requires
        from <= to <= s.len(),
    ensures
        r@ == trim_char(s@.subrange(from as int, to as int), c),
{
    let mut a: usize = from;
    while a < to && s[a] == c
        invariant
            from <= a <= to <= s.len(),
            trim_start_char(s@.subrange(from as int, to as int), c) == trim_start_char(
                s@.subrange(a as int, to as int),
                c,
            ),
        decreases to - a,
    {
        assert(s@.subrange(a as int, to as int).skip(1) == s@.subrange(a + 1, to as int));
        a = a + 1;
    }
    let mut b: usize = to;
    while b > a && s[b - 1] == c
        invariant
            from <= a <= b <= to <= s.len(),
            trim_end_char(s@.subrange(a as int, to as int), c) == trim_end_char(
                s@.subrange(a as int, b as int),
                c,
            ),
        decreases b - a,
    {
        assert(s@.subrange(a as int, b as int).drop_last() == s@.subrange(a as int, b - 1));
        b = b - 1;
    }
    slice_string(s, a, b)
}

/// Several texts one behind the other.
pub open spec fn cat(parts: Seq<Seq<char>>) -> Seq<char>
    decreases parts.len(),
{
    if parts.len() == 0 {
        Seq::empty()
    } else {
        cat(parts.drop_last()) + parts.last()
    }
}

/// Several texts one behind the other, `sep` between them.
pub open spec fn join(parts: Seq<Seq<char>>, sep: Seq<char>) -> Seq<char>
    decreases parts.len(),
{
    if parts.len() == 0 {
        Seq::empty()
    } else if parts.len() == 1 {
        parts[0]
    } else {
        join(parts.drop_last(), sep) + sep + parts.last()
    }
}

/// Several strings one behind the other.
pub fn concat_texts(parts: &Vec<String>) -> (r: String)
    ensures
        r@ == cat(texts(parts@)),
{
    let ghost all = texts(parts@);
    let mut out: String = String::new();
    let mut i: usize = 0;
    while i < parts.len()
        invariant
            i <= parts.len(),
            all == texts(parts@),
            out@ == cat(all.take(i as int)),
        decreases parts.len() - i,
    {
        out.append(parts[i].as_str());
        assert(all.take(i + 1).drop_last() == all.take(i as int));
        i = i + 1;
    }
    assert(all.take(i as int) == all);
    out
}

/// Several strings one behind the other, `sep` between them.
pub fn join_texts(parts: &Vec<String>, sep: &str) -> (r: String)
    ensures
        r@ == join(texts(parts@), sep@),
{
    let ghost all = texts(parts@);
    let mut out: String = String::new();
    let mut i: usize = 0;
    while i < parts.len()
        invariant
            i <= parts.len(),
            all == texts(parts@),
            out@ == join(all.take(i as int), sep@),
        decreases parts.len() - i,
    {
        let ghost next = all.take(i + 1);
        assert(next.drop_last() == all.take(i as int));
        assert(next.last() == all[i as int]);
        if i > 0 {
            out.append(sep);
            out.append(parts[i].as_str());
        } else {
            out = parts[i].clone();
        }
        i = i + 1;
    }
    assert(all.take(i as int) == all);
    out
}

/// Where a text first stands in a list; the list's length where it does not.
pub open spec fn place(list: Seq<Seq<char>>, s: Seq<char>) -> nat
    decreases list.len(),
{
    if list.len() == 0 {
        0
    } else {
        let p = place(list.drop_last(), s);
        if p < list.len() - 1 || list.last() == s {
            p
        } else {
            list.len()
        }
    }
}

/// A list with a text put at its end unless it is there already.
pub open spec fn put(list: Seq<Seq<char>>, s: Seq<char>) -> Seq<Seq<char>> {
    if place(list, s) < list.len() {
        list
    } else {
        list.push(s)
    }
}

/// The place of a text in a list is where it first stands.
pub proof fn place_is_first(list: Seq<Seq<char>>, s: Seq<char>)
    ensures
        place(list, s) <= list.len(),
        place(list, s) < list.len() ==> list[place(list, s) as int] == s,
        forall|k: int| 0 <= k < place(list, s) ==> #[trigger] list[k] != s,
    decreases list.len(),
{
    if list.len() > 0 {
        let p = list.drop_last();
        place_is_first(p, s);
        assert forall|k: int| 0 <= k < place(list, s) implies #[trigger] list[k] != s by {
            if k < p.len() {
                assert(p[k] == list[k]);
            }
        }
    }
}

/// Where a string first stands in a list; the list's length where it does not.
pub fn place_of(list: &Vec<String>, s: &str) -> (r: usize)
    ensures
        r == place(texts(list@), s@),
{
    let ghost t = texts(list@);
    let mut i: usize = 0;
    while i < list.len() && !same_text(list[i].as_str(), s)
        invariant
            i <= list.len(),
            t == texts(list@),
            forall|k: int| 0 <= k < i ==> #[trigger] t[k] != s@,
        decreases list.len() - i,
    {
        assert(t[i as int] == list@[i as int]@);
        i = i + 1;
    }
    proof {
        place_is_first(t, s@);
        if i < list@.len() {
            assert(t[i as int] == s@);
        }
    }
    i
}

/// Appends a text where a condition holds.
pub fn push_if(out: &mut String, cond: bool, s: &str)
    ensures
        final(out)@ == old(out)@ + opt(cond, s@),
{
    if cond {
        out.append(s);
    } else {
        assert(out@ == old(out)@ + Seq::<char>::empty());
    }
}

/// A text where a condition holds, nothing where it does not.
pub open spec fn opt(cond: bool, s: Seq<char>) -> Seq<char> {
    if cond {
        s
    } else {
        Seq::empty()
    }
}

/// The pieces of a text between the characters `c`.
pub open spec fn pieces(s: Seq<char>, c: char) -> Seq<Seq<char>>
    decreases s.len(),
{
    if s.len() == 0 {
        seq![s]
    } else {
        let front = pieces(s.drop_last(), c);
        if s.last() == c {
            front.push(Seq::empty())
        } else {
            front.drop_last().push(front.last().push(s.last()))
        }
    }
}

/// The pieces of a text between the characters `c`.
pub fn split_text(s: &str, c: char) -> (r: Vec<String>)
    ensures
        texts(r@) == pieces(s@, c),
        r@.len() > 0,
{
    let chars: Vec<char> = chars_of(s);
    let mut done: Vec<String> = Vec::new();
    let mut piece: String = String::new();
    let mut i: usize = 0;
    assert(piece@ =~= s@.take(0));
    assert(texts(done@).push(piece@) =~= pieces(s@.take(0), c));
    while i < chars.len()
        invariant
            i <= chars.len(),
            chars@ == s@,
            texts(done@).push(piece@) == pieces(s@.take(i as int), c),
        decreases chars.len() - i,
    {
        let x: char = chars[i];
        let ghost front = texts(done@).push(piece@);
        let ghost was = texts(done@);
        assert(s@.take(i + 1).drop_last() =~= s@.take(i as int));
        assert(s@.take(i + 1).last() == x);
        assert(front.drop_last() =~= was);
        if x == c {
            let ghost p = piece@;
            done.push(piece);
            assert(texts(done@) =~= was.push(p));
            piece = String::new();
            assert(texts(done@).push(piece@) =~= front.push(Seq::empty()));
        } else {
            piece.push(x);
        }
        i = i + 1;
    }
    assert(s@.take(i as int) =~= s@);
    let ghost was = texts(done@);
    let ghost p = piece@;
    done.push(piece);
    assert(texts(done@) =~= was.push(p));
    done
}

} // verus!
