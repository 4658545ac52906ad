//! String helpers, stated over the sequence of characters of a string.
use vstd::prelude::*;
use vstd::string::*;

verus! {

/// `String::push` of std appends one character at the end.
pub assume_specification[ String::push ](s: &mut String, c: char)
    ensures
        final(s)@ == old(s)@.push(c),
;

/// What `str::to_lowercase` of std returns for these characters.
pub uninterp spec fn lowercase(s: Seq<char>) -> Seq<char>;

/// `str::to_lowercase` of std: its result depends on the characters alone. The
/// Unicode case tables behind it are left unsaid.
pub assume_specification[ str::to_lowercase ](s: &str) -> (r: String)
    ensures
        r@ == lowercase(s@),
;

/// The characters with the Unicode property `White_Space`.
pub open spec fn is_white(c: char) -> bool {
    let n = c as u32;
    ||| 0x9 <= n <= 0xD
    ||| n == 0x20 || n == 0x85 || n == 0xA0 || n == 0x1680
    ||| 0x2000 <= n <= 0x200A
    ||| n == 0x2028 || n == 0x2029 || n == 0x202F || n == 0x205F || n == 0x3000
}

/// `char::is_whitespace` of std: whether the character has the Unicode property
/// `White_Space`.
pub assume_specification[ char::is_whitespace ](c: char) -> (r: bool)
    ensures
        r == is_white(c),
;

/// The characters of each string of a list.
pub open spec fn strs(v: Seq<String>) -> Seq<Seq<char>> {
    Seq::new(v.len(), |i: int| v[i]@)
}

/// The characters of an optional string.
pub open spec fn opt_str(s: Option<String>) -> Option<Seq<char>> {
    match s {
        Some(t) => Some(t@),
        None => None,
    }
}

/// The characters of an optional string slice.
pub open spec fn opt_slice(s: Option<&str>) -> Option<Seq<char>> {
    match s {
        Some(t) => Some(t@),
        None => None,
    }
}

/// The characters of a string, in order.
pub fn chars_of(s: &str) -> (v: Vec<char>)
    ensures
        v@ == s@,
{
    let mut v: Vec<char> = Vec::new();
    for c in it: s.chars()
        invariant
            v@ == it.seq().take(it.index()),
            it.seq() == s@,
    {
        v.push(c);
    }
    v
}

/// The string of the characters `v[lo..hi]`.
pub fn string_of(v: &Vec<char>, lo: usize, hi: usize) -> (s: String)
    requires
        lo <= hi <= v@.len(),
    ensures
        s@ == v@.subrange(lo as int, hi as int),
{
    let mut s = String::new();
    let mut i: usize = lo;
    while i < hi
        invariant
            lo <= i <= hi <= v@.len(),
            s@ == v@.subrange(lo as int, i as int),
        decreases hi - i,
    {
        s.push(v[i]);
        i += 1;
        assert(v@.subrange(lo as int, i as int) =~= v@.subrange(lo as int, i - 1).push(v@[i - 1]));
    }
    s
}

/// Whether two strings hold the same characters.
pub fn same(a: &str, b: &str) -> (r: bool)
    ensures
        r == (a@ == b@),
{
    a.to_owned() == b.to_owned()
}

/// A copy of a list of strings.
pub fn copy_list(v: &Vec<String>) -> (r: Vec<String>)
    ensures
        strs(r@) == strs(v@),
{
    let mut r: Vec<String> = Vec::new();
    let mut i: usize = 0;
    while i < v.len()
        invariant
            i <= v@.len(),
            strs(r@) == strs(v@).take(i as int),
        decreases v@.len() - i,
    {
        let ghost before = r@;
        r.push(v[i].clone());
        proof {
            lemma_strs_push(before, r@.last());
        }
        assert(strs(v@).take(i + 1) =~= strs(v@).take(i as int).push(v@[i as int]@));
        i += 1;
    }
    assert(strs(v@).take(v@.len() as int) =~= strs(v@));
    r
}

/// Appending to a list appends the characters of the new string.
pub proof fn lemma_strs_push(v: Seq<String>, s: String)
    ensures
        strs(v.push(s)) == strs(v).push(s@),
{
    assert(strs(v.push(s)) =~= strs(v).push(s@));
}

/// The position of the first string of the list with the wanted characters.
pub open spec fn first_index(list: Seq<Seq<char>>, wanted: Seq<char>) -> Option<int>
    decreases list.len(),
{
    if list.len() == 0 {
        None
    } else {
        match first_index(list.drop_last(), wanted) {
            Some(i) => Some(i),
            None => if list.last() == wanted {
                Some(list.len() - 1)
            } else {
                None
            },
        }
    }
}

/// What `first_index` finds: the wanted string, at its first occurrence, or
/// nothing when it does not occur.
pub proof fn lemma_first_index(list: Seq<Seq<char>>, wanted: Seq<char>)
    ensures
        match first_index(list, wanted) {
            Some(i) => {
                &&& 0 <= i < list.len()
                &&& list[i] == wanted
                &&& forall|j: int| 0 <= j < i ==> list[j] != wanted
            },
            None => !list.contains(wanted),
        },
    decreases list.len(),
{
    if list.len() > 0 {
        lemma_first_index(list.drop_last(), wanted);
        let shorter = list.drop_last();
        assert forall|j: int| 0 <= j < shorter.len() implies shorter[j] == list[j] by {}
        if first_index(shorter, wanted) is None {
            assert forall|j: int| 0 <= j < list.len() - 1 implies list[j] != wanted by {
                assert(shorter[j] == list[j]);
                if list[j] == wanted {
                    assert(shorter.contains(wanted));
                }
            }
        }
    }
}

/// Finds the first string of the list with the wanted characters.
pub fn position(list: &Vec<String>, wanted: &str) -> (r: Option<usize>)
    ensures
        match r {
            Some(i) => first_index(strs(list@), wanted@) == Some(i as int),
            None => first_index(strs(list@), wanted@) is None,
        },
        r matches Some(i) ==> i < list@.len() && list@[i as int]@ == wanted@,
{
    let ghost all = strs(list@);
    let mut i: usize = 0;
    while i < list.len()
        invariant
            i <= list@.len(),
            all == strs(list@),
            first_index(all.take(i as int), wanted@) is None,
        decreases list@.len() - i,
    {
        assert(all.take(i + 1).drop_last() =~= all.take(i as int));
        if same(list[i].as_str(), wanted) {
            proof {
                lemma_first_index_extends(all, wanted@, i + 1);
            }
            return Some(i);
        }
        i += 1;
    }
    assert(all.take(list@.len() as int) =~= all);
    None
}

/// A hit in the first `n` strings is the hit in the whole list.
proof fn lemma_first_index_extends(list: Seq<Seq<char>>, wanted: Seq<char>, n: int)
    requires
        0 <= n <= list.len(),
        first_index(list.take(n), wanted) is Some,
    ensures
        first_index(list, wanted) == first_index(list.take(n), wanted),
    decreases list.len(),
{
    if n < list.len() {
        assert(list.drop_last().take(n) =~= list.take(n));
        lemma_first_index_extends(list.drop_last(), wanted, n);
    } else {
        assert(list.take(n) =~= list);
    }
}

/// The list joined with a separator between neighbours.
pub open spec fn joined(list: Seq<Seq<char>>, sep: Seq<char>) -> Seq<char>
    decreases list.len(),
{
    if list.len() == 0 {
        Seq::empty()
    } else if list.len() == 1 {
        list[0]
    } else {
        joined(list.drop_last(), sep) + sep + list.last()
    }
}

/// Joins the strings of a list.
pub fn join(list: &Vec<String>, sep: &str) -> (r: String)
    ensures
        r@ == joined(strs(list@), sep@),
{
    let ghost all = strs(list@);
    let mut r = String::new();
    let mut i: usize = 0;
    while i < list.len()
        invariant
            i <= list@.len(),
            all == strs(list@),
            r@ == joined(all.take(i as int), sep@),
        decreases list@.len() - i,
    {
        assert(all.take(i + 1).drop_last() =~= all.take(i as int));
        if i > 0 {
            r.append(sep);
            r.append(list[i].as_str());
        } else {
            r.append(list[i].as_str());
            assert(r@ =~= all[0]);
        }
        i += 1;
    }
    assert(all.take(list@.len() as int) =~= all);
    r
}

/// The decimal digit of a number below ten.
pub open spec fn digit(d: nat) -> char {
    (48 + d) as char
}

/// The decimal notation of a number, without leading zeros.
pub open spec fn decimal(n: nat) -> Seq<char>
    decreases n,
{
    if n < 10 {
        seq![digit(n)]
    } else {
        decimal(n / 10).push(digit(n % 10))
    }
}

/// Writes a number in decimal notation.
pub fn decimal_of(n: u64) -> (r: String)
    ensures
        r@ == decimal(n as nat),
    decreases n,
{
    if n < 10 {
        let mut s = String::new();
        s.push((48 + n as u8) as char);
        assert(s@ =~= decimal(n as nat));
        s
    } else {
        let mut s = decimal_of(n / 10);
        s.push((48 + (n % 10) as u8) as char);
        s
    }
}

/// Whether `needle` occurs in `hay` as a run of neighbouring characters.
pub open spec fn occurs(hay: Seq<char>, needle: Seq<char>) -> bool {
    exists|i: int|
        0 <= i <= hay.len() - needle.len() && #[trigger] hay.subrange(i, i + needle.len())
            == needle
}

/// Whether the characters `h[at..]` begin with `n`.
fn matches_at(h: &Vec<char>, n: &Vec<char>, at: usize) -> (r: bool)
    requires
        at + n@.len() <= h@.len(),
    ensures
        r == (h@.subrange(at as int, at + n@.len()) == n@),
{
    let total: usize = h.len();
    let mut j: usize = 0;
    while j < n.len()
        invariant
            j <= n@.len(),
            at + n@.len() <= total,
            total == h@.len(),
            forall|k: int| 0 <= k < j ==> h@[at + k] == n@[k],
        decreases n@.len() - j,
    {
        if h[at + j] != n[j] {
            assert(h@.subrange(at as int, at + n@.len())[j as int] != n@[j as int]);
            return false;
        }
        j += 1;
    }
    assert(h@.subrange(at as int, at + n@.len()) =~= n@);
    true
}

/// Looks for `needle` in `hay`.
pub fn contains(hay: &str, needle: &str) -> (r: bool)
    ensures
        r == occurs(hay@, needle@),
{
    let h = chars_of(hay);
    let n = chars_of(needle);
    if n.len() > h.len() {
        return false;
    }
    let last: usize = h.len() - n.len();
    let mut i: usize = 0;
    loop
        invariant
            i <= last,
            last == h@.len() - n@.len(),
            h@ == hay@,
            n@ == needle@,
            forall|k: int| 0 <= k < i ==> #[trigger] hay@.subrange(k, k + needle@.len()) != needle@,
        decreases last - i,
    {
        if matches_at(&h, &n, i) {
            return true;
        }
        if i == last {
            return false;
        }
        i += 1;
    }
}

/// Whether `s` begins with `prefix`.
pub open spec fn begins(s: Seq<char>, prefix: Seq<char>) -> bool {
    prefix.len() <= s.len() && s.take(prefix.len() as int) == prefix
}

/// Whether `s` ends with `suffix`.
pub open spec fn ends(s: Seq<char>, suffix: Seq<char>) -> bool {
    suffix.len() <= s.len() && s.skip(s.len() - suffix.len()) == suffix
}

/// The rest of `s` behind `prefix`, where `s` begins with it.
pub fn strip_prefix(s: &str, prefix: &str) -> (r: Option<String>)
    ensures
        match r {
            Some(rest) => begins(s@, prefix@) && rest@ == s@.skip(prefix@.len() as int),
            None => !begins(s@, prefix@),
        },
{
    let v = chars_of(s);
    let p = chars_of(prefix);
    if p.len() > v.len() {
        return None;
    }
    assert(v@.subrange(0, p@.len() as int) =~= v@.take(p@.len() as int));
    if matches_at(&v, &p, 0) {
        let rest = string_of(&v, p.len(), v.len());
        assert(rest@ =~= s@.skip(prefix@.len() as int));
        Some(rest)
    } else {
        None
    }
}

/// Whether `s` ends with `suffix`.
pub fn ends_with(s: &str, suffix: &str) -> (r: bool)
    ensures
        r == ends(s@, suffix@),
{
    let v = chars_of(s);
    let p = chars_of(suffix);
    if p.len() > v.len() {
        return false;
    }
    assert(v@.subrange(v@.len() - p@.len(), v@.len() as int) =~= v@.skip(v@.len() - p@.len()));
    matches_at(&v, &p, v.len() - p.len())
}

/// How many characters of white space stand at the front.
pub open spec fn white_front(s: Seq<char>) -> nat
    decreases s.len(),
{
    if s.len() > 0 && is_white(s[0]) {
        1 + white_front(s.drop_first())
    } else {
        0
    }
}

/// The characters without the white space at the end.
pub open spec fn trimmed_end(s: Seq<char>) -> Seq<char>
    decreases s.len(),
{
    if s.len() > 0 && is_white(s.last()) {
        trimmed_end(s.drop_last())
    } else {
        s
    }
}

/// The characters without the white space at either end.
pub open spec fn trimmed(s: Seq<char>) -> Seq<char> {
    trimmed_end(s.skip(white_front(s) as int))
}

proof fn lemma_white_front_bound(s: Seq<char>)
    ensures
        white_front(s) <= s.len(),
    decreases s.len(),
{
    if s.len() > 0 && is_white(s[0]) {
        lemma_white_front_bound(s.drop_first());
    }
}

/// Takes the white space off both ends.
pub fn trim(s: &str) -> (r: String)
    ensures
        r@ == trimmed(s@),
{
    let v = chars_of(s);
    let mut lo: usize = 0;
    assert(s@.skip(0) =~= s@);
    while lo < v.len() && v[lo].is_whitespace()
        invariant
            v@ == s@,
            lo <= v@.len(),
            white_front(s@) == lo + white_front(s@.skip(lo as int)),
        decreases v@.len() - lo,
    {
        assert(s@.skip(lo as int).drop_first() =~= s@.skip(lo + 1));
        lo += 1;
    }
    assert(white_front(s@.skip(lo as int)) == 0);
    let ghost rest = s@.skip(lo as int);
    let mut hi: usize = v.len();
    assert(v@.subrange(lo as int, hi as int) =~= rest);
    while hi > lo && v[hi - 1].is_whitespace()
        invariant
            lo <= hi <= v@.len(),
            trimmed_end(rest) == trimmed_end(v@.subrange(lo as int, hi as int)),
        decreases hi,
    {
        assert(v@.subrange(lo as int, hi as int).drop_last() =~= v@.subrange(lo as int, hi - 1));
        hi -= 1;
    }
    string_of(&v, lo, hi)
}

/// The lower-case form of an ASCII letter; every other character is itself.
pub open spec fn ascii_lower_char(c: char) -> char {
    if 'A' <= c <= 'Z' {
        (c as u32 + 32) as char
    } else {
        c
    }
}

/// The characters with the ASCII letters in lower case.
pub open spec fn ascii_lowered(s: Seq<char>) -> Seq<char> {
    Seq::new(s.len(), |i: int| ascii_lower_char(s[i]))
}

/// Puts the ASCII letters of a string in lower case.
pub fn ascii_lower(s: &str) -> (r: String)
    ensures
        r@ == ascii_lowered(s@),
{
    let mut r = String::new();
    for c in it: s.chars()
        invariant
            it.seq() == s@,
            r@ == ascii_lowered(s@).take(it.index()),
    {
        let ghost i = it.index();
        if 'A' <= c && c <= 'Z' {
            r.push((c as u8 + 32) as char);
        } else {
            r.push(c);
        }
        assert(ascii_lowered(s@).take(i + 1) =~= ascii_lowered(s@).take(i).push(ascii_lower_char(c)));
    }
    assert(ascii_lowered(s@).take(s@.len() as int) =~= ascii_lowered(s@));
    r
}

/// `n` spaces.
pub open spec fn spaces(n: nat) -> Seq<char> {
    Seq::new(n, |i: int| ' ')
}

/// How many spaces bring a text of `len` characters to a width.
pub open spec fn gap(len: nat, width: nat) -> nat {
    if len < width {
        (width - len) as nat
    } else {
        0
    }
}

fn push_spaces(s: &mut String, n: usize)
    ensures
        final(s)@ == old(s)@ + spaces(n as nat),
{
    let ghost before = s@;
    let mut i: usize = 0;
    assert(before + spaces(0) =~= before);
    while i < n
        invariant
            i <= n,
            s@ == before + spaces(i as nat),
        decreases n - i,
    {
        s.push(' ');
        i += 1;
        assert(before + spaces(i as nat) =~= (before + spaces((i - 1) as nat)).push(' '));
    }
}

/// Fills a text with spaces on its right up to a width in characters.
pub fn pad_right(s: &str, width: usize) -> (r: String)
    ensures
        r@ == s@ + spaces(gap(s@.len(), width as nat)),
{
    let n: usize = s.unicode_len();
    let mut r = s.to_owned();
    push_spaces(&mut r, if n < width { width - n } else { 0 });
    r
}

/// Fills a text with spaces on its left up to a width in characters.
pub fn pad_left(s: &str, width: usize) -> (r: String)
    ensures
        r@ == spaces(gap(s@.len(), width as nat)) + s@,
{
    let n: usize = s.unicode_len();
    let mut r = String::new();
    push_spaces(&mut r, if n < width { width - n } else { 0 });
    r.append(s);
    assert(r@ =~= spaces(gap(s@.len(), width as nat)) + s@);
    r
}

proof fn lemma_white_front(s: Seq<char>)
    ensures
        white_front(s) <= s.len(),
        forall|k: int| 0 <= k < white_front(s) ==> is_white(#[trigger] s[k]),
        white_front(s) < s.len() ==> !is_white(s[white_front(s) as int]),
    decreases s.len(),
{
    if s.len() > 0 && is_white(s[0]) {
        let rest = s.drop_first();
        lemma_white_front(rest);
        assert forall|k: int| 0 <= k < white_front(s) implies is_white(#[trigger] s[k]) by {
            if k > 0 {
                assert(s[k] == rest[k - 1]);
            }
        }
    }
}

proof fn lemma_trimmed_end(s: Seq<char>)
    ensures
        trimmed_end(s).len() <= s.len(),
        trimmed_end(s) == s.take(trimmed_end(s).len() as int),
        forall|k: int| trimmed_end(s).len() <= k < s.len() ==> is_white(#[trigger] s[k]),
        trimmed_end(s).len() > 0 ==> !is_white(trimmed_end(s).last()),
    decreases s.len(),
{
    if s.len() > 0 && is_white(s.last()) {
        let front = s.drop_last();
        lemma_trimmed_end(front);
        assert(front.take(trimmed_end(s).len() as int) =~= s.take(trimmed_end(s).len() as int));
        assert forall|k: int| trimmed_end(s).len() <= k < s.len() implies is_white(
            #[trigger] s[k],
        ) by {
            if k < front.len() {
                assert(s[k] == front[k]);
            }
        }
    } else {
        assert(s.take(s.len() as int) =~= s);
    }
}

/// Trimming takes off white space and nothing else: what is left is a stretch of the
/// text, all around it is white, and neither end of it is.
pub proof fn trimmed_lacks_only_white_ends(s: Seq<char>)
    ensures
        exists|i: int, j: int|
            0 <= i <= j <= s.len() && trimmed(s) == #[trigger] s.subrange(i, j) && (forall|k: int|
                0 <= k < i || j <= k < s.len() ==> is_white(#[trigger] s[k])),
        trimmed(s).len() > 0 ==> !is_white(trimmed(s)[0]) && !is_white(trimmed(s).last()),
{
    lemma_white_front(s);
    let i = white_front(s) as int;
    let rest = s.skip(i);
    lemma_trimmed_end(rest);
    let j = i + trimmed(s).len();
    assert(trimmed(s) =~= s.subrange(i, j));
    assert forall|k: int| 0 <= k < i || j <= k < s.len() implies is_white(#[trigger] s[k]) by {
        if j <= k {
            assert(s[k] == rest[k - i]);
        }
    }
}

/// The number that decimal digits stand for.
pub open spec fn number_in(digits: Seq<char>) -> int
    decreases digits.len(),
{
    if digits.len() == 0 {
        0
    } else {
        10 * number_in(digits.drop_last()) + (digits.last() as u32 - 48)
    }
}

/// Decimal notation stands for its number: it consists of digits, and begins with
/// zero only where it is the number zero.
pub proof fn decimal_stands_for_its_number(n: nat)
    ensures
        number_in(decimal(n)) == n,
        decimal(n).len() > 0,
        forall|i: int| 0 <= i < decimal(n).len() ==> '0' <= #[trigger] decimal(n)[i] <= '9',
        decimal(n)[0] == '0' ==> n == 0 && decimal(n).len() == 1,
    decreases n,
{
    if n < 10 {
        assert(decimal(n).drop_last() =~= Seq::<char>::empty());
        assert(number_in(decimal(n).drop_last()) == 0);
    } else {
        decimal_stands_for_its_number(n / 10);
        assert(decimal(n).drop_last() =~= decimal(n / 10));
        assert(decimal(n)[0] == decimal(n / 10)[0]);
        assert forall|i: int| 0 <= i < decimal(n).len() implies '0' <= #[trigger] decimal(n)[i]
            <= '9' by {
            if i < decimal(n).len() - 1 {
                assert(decimal(n)[i] == decimal(n / 10)[i]);
            }
        }
    }
}

/// A joined list begins with its first entry; behind a separator the rest follows,
/// joined in the same way.
pub proof fn joined_from_the_front(first: Seq<char>, rest: Seq<Seq<char>>, sep: Seq<char>)
    ensures
        joined(Seq::empty(), sep) == Seq::<char>::empty(),
        rest.len() == 0 ==> joined(seq![first] + rest, sep) == first,
        rest.len() > 0 ==> joined(seq![first] + rest, sep) == first + sep + joined(rest, sep),
    decreases rest.len(),
{
    let all = seq![first] + rest;
    if rest.len() > 0 {
        let short = rest.drop_last();
        joined_from_the_front(first, short, sep);
        assert(all.drop_last() =~= seq![first] + short);
        if short.len() == 0 {
            assert(joined(all, sep) == joined(all.drop_last(), sep) + sep + all.last());
            assert(joined(rest, sep) == rest[0]);
        } else {
            assert(joined(rest, sep) == joined(short, sep) + sep + rest.last());
            assert(joined(all, sep) =~= first + sep + joined(rest, sep));
        }
    }
}

/// Where a text stands inside another one, at its front and at its end.
pub proof fn parts_are_found(a: Seq<char>, b: Seq<char>, c: Seq<char>)
    ensures
        occurs(a + b + c, b),
        begins(a + b, a),
        ends(a + b, b),
        begins(a, b) ==> a == b + a.skip(b.len() as int),
        ends(a, b) ==> a == a.take(a.len() - b.len()) + b,
        occurs(a, b) ==> exists|i: int|
            0 <= i <= a.len() - b.len() && a == #[trigger] a.take(i) + b + a.skip(
                i + b.len(),
            ),
{
    assert((a + b + c).subrange(a.len() as int, (a.len() + b.len()) as int) =~= b);
    assert((a + b).take(a.len() as int) =~= a);
    assert((a + b).skip(a.len() as int) =~= b);
    if begins(a, b) {
        assert(a =~= b + a.skip(b.len() as int));
    }
    if ends(a, b) {
        assert(a =~= a.take(a.len() - b.len()) + b);
    }
    if occurs(a, b) {
        let i = choose|i: int|
            0 <= i <= a.len() - b.len() && #[trigger] a.subrange(i, i + b.len()) == b;
        assert(a =~= a.take(i) + a.subrange(i, i + b.len()) + a.skip(i + b.len()));
    }
}

/// Lower case changes the letters from A to Z, each by the same step, and leaves every
/// other character.
pub proof fn lower_case_of_ascii(s: Seq<char>)
    ensures
        ascii_lowered(s).len() == s.len(),
        forall|i: int|
            0 <= i < s.len() ==> {
                let c = #[trigger] s[i] as u32;
                ascii_lowered(s)[i] as u32 == if 65 <= c <= 90 {
                    c + 32
                } else {
                    c as int
                }
            },
{
}

/// Padding brings a text to a width and leaves a text that has it.
pub proof fn padding_fills_up(s: Seq<char>, width: nat)
    ensures
        s.len() >= width ==> spaces(gap(s.len(), width)).len() == 0,
        s.len() < width ==> s.len() + spaces(gap(s.len(), width)).len() == width,
        forall|i: int|
            0 <= i < spaces(gap(s.len(), width)).len() ==> #[trigger] spaces(
                gap(s.len(), width),
            )[i] == ' ',
{
}

/// What stands for a list of strings: the characters of each of them, in order.
pub proof fn lists_keep_their_strings(v: Seq<String>, s: String)
    ensures
        strs(v).len() == v.len(),
        forall|i: int| 0 <= i < v.len() ==> #[trigger] strs(v)[i] == v[i]@,
        opt_str(Some(s)) == Some(s@),
        opt_str(None) is None,
{
}

} // verus!
