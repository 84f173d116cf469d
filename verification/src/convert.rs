//! The runtime value model: every value the engine manipulates, with its
//! equality, truthiness and stringification rules, and the conversions
//! between `str`/`String` and the character sequences the engine works on.
//!
//! Numbers are kept as canonical decimal strings (optional minus sign, no
//! leading zeros, no trailing fraction zeros, no lone `-0`), so numeric
//! equality coincides with equality of the canonical text and ordering is
//! decided digit by digit. Object and function values are opaque host
//! handles: the engine never inspects them and they never compare equal.

use vstd::prelude::*;
use crate::error::FinchError;
use crate::error::ErrV;

verus! {

/// A host-owned reference (an object or a function of the host), carried as
/// an opaque handle. The engine only passes it back to the host or uses it as
/// a key into the data source; two handles never compare equal.
#[derive(Debug, Clone, Copy)]
pub struct RawObject(pub usize);

/// A runtime value: string, number (canonical decimal text), boolean,
/// ordered list, opaque object handle, opaque function handle, `undefined`
/// or `null`.
#[derive(Debug)]
pub enum RawValue {
    Str(String),
    Num(String),
    Bool(bool),
    List(Vec<RawValue>),
    Object(RawObject),
    Function(RawObject),
    Undefined,
    Null,
}

/// The mathematical image of a [`RawValue`]: the same cases over sequences
/// of characters and plain integers. Contracts speak of values through this
/// type.
pub enum Val {
    Str(Seq<char>),
    Num(Seq<char>),
    Bool(bool),
    List(Seq<Val>),
    Object(int),
    Function(int),
    Undefined,
    Null,
}

/// The image of a runtime value.
pub open spec fn rv_view(v: RawValue) -> Val
    decreases v, 0int,
{
    match v {
        RawValue::Str(s) => Val::Str(s@),
        RawValue::Num(s) => Val::Num(s@),
        RawValue::Bool(b) => Val::Bool(b),
        RawValue::List(items) => Val::List(vals_view(items@)),
        RawValue::Object(h) => Val::Object(h.0 as int),
        RawValue::Function(h) => Val::Function(h.0 as int),
        RawValue::Undefined => Val::Undefined,
        RawValue::Null => Val::Null,
    }
}

/// The image of a sequence of runtime values, element by element.
pub open spec fn vals_view(s: Seq<RawValue>) -> Seq<Val>
    decreases s, 1int,
{
    if s.len() == 0 {
        Seq::empty()
    } else {
        vals_view(s.drop_last()).push(rv_view(s.last()))
    }
}

/// The element at index `i` of the image of a sequence is the image of the
/// element at `i`.
pub broadcast proof fn lemma_vals_view(s: Seq<RawValue>)
    ensures
        (#[trigger] vals_view(s)).len() == s.len(),
        forall|i: int| 0 <= i < s.len() ==> vals_view(s)[i] == rv_view(s[i]),
    decreases s.len(),
{
    if s.len() > 0 {
        lemma_vals_view(s.drop_last());
    }
}

impl View for RawValue {
    type V = Val;

    open spec fn view(&self) -> Val {
        rv_view(*self)
    }
}

/// Relies on `str::chars` and `Iterator::collect`: the characters of a
/// string slice, in order, as a vector.
#[verifier::external_body]
pub fn str_chars(s: &str) -> (r: Vec<char>)
    ensures
        r@ == s@,
{
    s.chars().collect()
}

/// Relies on `Iterator::collect` for `String`: the string holding exactly
/// the given characters, in order.
#[verifier::external_body]
pub fn chars_string(v: &Vec<char>) -> (r: String)
    ensures
        r@ == v@,
{
    v.iter().collect()
}

/// Character-for-character equality of two string slices.
pub fn str_eq(a: &str, b: &str) -> (r: bool)
    ensures
        r == (a@ == b@),
{
    let n = a.unicode_len();
    if n != b.unicode_len() {
        return false;
    }
    let mut i: usize = 0;
    while i < n
        invariant
            i <= n,
            n == a@.len(),
            n == b@.len(),
            forall|j: int| 0 <= j < i ==> a@[j] == b@[j],
        decreases n - i,
    {
        if a.get_char(i) != b.get_char(i) {
            return false;
        }
        i += 1;
    }
    proof {
        assert(a@ =~= b@);
    }
    true
}

/// Truthiness: the empty string, the number zero, `false`, `null` and
/// `undefined` are falsy; every other value (including an empty list and any
/// handle) is truthy.
pub open spec fn falsy(v: Val) -> bool {
    match v {
        Val::Str(s) => s.len() == 0,
        Val::Num(s) => s == seq!['0'],
        Val::Bool(b) => !b,
        Val::Null => true,
        Val::Undefined => true,
        Val::List(_) => false,
        Val::Object(_) => false,
        Val::Function(_) => false,
    }
}

/// Value equality: strings, numbers and booleans compare by content, `null`
/// and `undefined` each equal only themselves, lists compare element by
/// element, and object or function handles never compare equal. Values of
/// different kinds never compare equal.
pub open spec fn rv_eq(a: Val, b: Val) -> bool
    decreases a, 0int,
{
    match (a, b) {
        (Val::Str(x), Val::Str(y)) => x == y,
        (Val::Num(x), Val::Num(y)) => x == y,
        (Val::Bool(x), Val::Bool(y)) => x == y,
        (Val::Null, Val::Null) => true,
        (Val::Undefined, Val::Undefined) => true,
        (Val::List(x), Val::List(y)) => list_eqv(x, y),
        _ => false,
    }
}

/// Element-by-element equality of two sequences of values.
pub open spec fn list_eqv(x: Seq<Val>, y: Seq<Val>) -> bool
    decreases x, 1int,
{
    if x.len() != y.len() {
        false
    } else if x.len() == 0 {
        true
    } else {
        rv_eq(x.first(), y.first()) && list_eqv(x.drop_first(), y.drop_first())
    }
}

/// `list_eqv` holds exactly when the lengths agree and every pair of
/// corresponding elements is equal.
pub proof fn lemma_list_eqv(x: Seq<Val>, y: Seq<Val>)
    ensures
        list_eqv(x, y) <==> (x.len() == y.len() && forall|i: int|
            0 <= i < x.len() ==> rv_eq(x[i], y[i])),
    decreases x.len(),
{
    if x.len() == y.len() && x.len() > 0 {
        lemma_list_eqv(x.drop_first(), y.drop_first());
        assert(forall|i: int| 0 <= i < x.drop_first().len()
            ==> x.drop_first()[i] == x[i + 1] && y.drop_first()[i] == y[i + 1]);
        if list_eqv(x, y) {
            assert(forall|i: int| 1 <= i < x.len() ==> rv_eq(x[i], y[i])) by {
                assert(forall|i: int| 1 <= i < x.len()
                    ==> x.drop_first()[i - 1] == x[i] && y.drop_first()[i - 1] == y[i]);
            }
            assert(x.first() == x[0] && y.first() == y[0]);
        }
    }
}

/// The rendered text of a value: strings verbatim; numbers as their
/// canonical text; booleans, `undefined` and `null` by name; lists as their
/// elements' texts joined by a comma and a space; handles as fixed tags.
pub open spec fn rv_str(v: Val) -> Seq<char>
    decreases v, 0int,
{
    match v {
        Val::Str(s) => s,
        Val::Num(s) => s,
        Val::Bool(b) => if b { seq!['t', 'r', 'u', 'e'] } else { seq!['f', 'a', 'l', 's', 'e'] },
        Val::Undefined => seq!['u', 'n', 'd', 'e', 'f', 'i', 'n', 'e', 'd'],
        Val::Null => seq!['n', 'u', 'l', 'l'],
        Val::List(items) => list_str(items),
        Val::Object(_) => seq![
            '[', 'o', 'b', 'j', 'e', 'c', 't', ' ', 'O', 'b', 'j', 'e', 'c', 't', ']',
        ],
        Val::Function(_) => seq!['[', 'f', 'u', 'n', 'c', 't', 'i', 'o', 'n', ']'],
    }
}

/// The texts of the elements, joined by `", "`.
pub open spec fn list_str(items: Seq<Val>) -> Seq<char>
    decreases items, 1int,
{
    if items.len() == 0 {
        Seq::empty()
    } else if items.len() == 1 {
        rv_str(items.first())
    } else {
        rv_str(items.first()) + seq![',', ' '] + list_str(items.drop_first())
    }
}

/// Whether a canonical number text is negative.
pub open spec fn is_neg(s: Seq<char>) -> bool {
    s.len() > 0 && s[0] == '-'
}

/// A canonical number text without its sign.
pub open spec fn magnitude(s: Seq<char>) -> Seq<char> {
    if is_neg(s) {
        s.skip(1)
    } else {
        s
    }
}

/// The text before the first `.` and the text after it (everything, and
/// nothing, when there is no dot).
pub open spec fn split_dot(s: Seq<char>) -> (Seq<char>, Seq<char>)
    decreases s.len(),
{
    if s.len() == 0 {
        (Seq::empty(), Seq::empty())
    } else if s[0] == '.' {
        (Seq::empty(), s.drop_first())
    } else {
        let r = split_dot(s.drop_first());
        (seq![s[0]] + r.0, r.1)
    }
}

/// `split_dot` splits exactly at the first dot position `d` (or keeps the
/// whole text when `d` is the length).
pub proof fn lemma_split_dot(s: Seq<char>, d: int)
    requires
        0 <= d <= s.len(),
        forall|j: int| 0 <= j < d ==> s[j] != '.',
        d < s.len() ==> s[d] == '.',
    ensures
        split_dot(s).0 == s.subrange(0, d),
        split_dot(s).1 == if d < s.len() {
            s.subrange(d + 1, s.len() as int)
        } else {
            Seq::<char>::empty()
        },
    decreases d,
{
    if s.len() == 0 {
        assert(s.subrange(0, 0) =~= Seq::<char>::empty());
    } else if d == 0 {
        assert(s.subrange(0, 0) =~= Seq::<char>::empty());
        assert(s.drop_first() =~= s.subrange(1, s.len() as int));
    } else {
        assert(forall|j: int| 0 <= j < d - 1 ==> s.drop_first()[j] == s[j + 1]);
        lemma_split_dot(s.drop_first(), d - 1);
        assert(seq![s[0]] + s.drop_first().subrange(0, d - 1) =~= s.subrange(0, d));
        if d < s.len() {
            assert(s.drop_first().subrange(d, s.drop_first().len() as int) =~= s.subrange(
                d + 1,
                s.len() as int,
            ));
        }
    }
}

/// Lexicographic comparison of two character sequences by code point, a
/// proper prefix ordering before anything longer.
pub open spec fn lex_cmp(a: Seq<char>, b: Seq<char>) -> core::cmp::Ordering
    decreases a.len(),
{
    if a.len() == 0 && b.len() == 0 {
        core::cmp::Ordering::Equal
    } else if a.len() == 0 {
        core::cmp::Ordering::Less
    } else if b.len() == 0 {
        core::cmp::Ordering::Greater
    } else if (a[0] as u32) < (b[0] as u32) {
        core::cmp::Ordering::Less
    } else if (a[0] as u32) > (b[0] as u32) {
        core::cmp::Ordering::Greater
    } else {
        lex_cmp(a.drop_first(), b.drop_first())
    }
}

/// Ordering of two unsigned canonical number texts: a shorter integer part
/// is smaller; equal-length integer parts compare lexicographically; equal
/// integer parts leave the decision to the fraction digits.
pub open spec fn mag_cmp(x: Seq<char>, y: Seq<char>) -> core::cmp::Ordering {
    let xs = split_dot(x);
    let ys = split_dot(y);
    if xs.0.len() < ys.0.len() {
        core::cmp::Ordering::Less
    } else if xs.0.len() > ys.0.len() {
        core::cmp::Ordering::Greater
    } else {
        match lex_cmp(xs.0, ys.0) {
            core::cmp::Ordering::Equal => lex_cmp(xs.1, ys.1),
            c => c,
        }
    }
}

/// Numeric ordering of two canonical number texts: a negative number is
/// below any non-negative one; two negatives compare by magnitude reversed.
pub open spec fn num_cmp(a: Seq<char>, b: Seq<char>) -> core::cmp::Ordering {
    if is_neg(a) && !is_neg(b) {
        core::cmp::Ordering::Less
    } else if !is_neg(a) && is_neg(b) {
        core::cmp::Ordering::Greater
    } else if is_neg(a) {
        mag_cmp(magnitude(b), magnitude(a))
    } else {
        mag_cmp(a, b)
    }
}

impl RawValue {
    /// A copy of this value with the same image.
    pub fn clone(&self) -> (r: Self)
        ensures
            r@ == self@,
        decreases *self, 0int,
    {
        match self {
            RawValue::Str(s) => RawValue::Str(s.clone()),
            RawValue::Num(s) => RawValue::Num(s.clone()),
            RawValue::Bool(b) => RawValue::Bool(*b),
            RawValue::List(items) => {
                let r = RawValue::List(clone_list(items));
                proof {
                    broadcast use lemma_vals_view;

                }
                r
            },
            RawValue::Object(h) => RawValue::Object(*h),
            RawValue::Function(h) => RawValue::Function(*h),
            RawValue::Undefined => RawValue::Undefined,
            RawValue::Null => RawValue::Null,
        }
    }

    /// Whether this value is falsy, by the rule of [`falsy`].
    pub fn is_falsey(&self) -> (r: bool)
        ensures
            r == falsy(self@),
    {
        match self {
            RawValue::Str(s) => s.as_str().unicode_len() == 0,
            RawValue::Num(s) => {
                let r = str_eq(s.as_str(), "0");
                proof {
                    reveal_strlit("0");
                    assert("0"@ =~= seq!['0']);
                }
                r
            },
            RawValue::Bool(b) => !*b,
            RawValue::Null => true,
            RawValue::Undefined => true,
            RawValue::List(_) => false,
            RawValue::Object(_) => false,
            RawValue::Function(_) => false,
        }
    }

    /// The rendered text of this value, as characters.
    pub fn to_chars(&self) -> (r: Vec<char>)
        ensures
            r@ == rv_str(self@),
        decreases *self, 0int,
    {
        match self {
            RawValue::Str(s) => str_chars(s.as_str()),
            RawValue::Num(s) => str_chars(s.as_str()),
            RawValue::Bool(b) => {
                let r = if *b {
                    vec!['t', 'r', 'u', 'e']
                } else {
                    vec!['f', 'a', 'l', 's', 'e']
                };
                proof {
                    if *b {
                        assert(r@ =~= seq!['t', 'r', 'u', 'e']);
                    } else {
                        assert(r@ =~= seq!['f', 'a', 'l', 's', 'e']);
                    }
                }
                r
            },
            RawValue::Undefined => {
                let r = vec!['u', 'n', 'd', 'e', 'f', 'i', 'n', 'e', 'd'];
                proof {
                    assert(r@ =~= seq!['u', 'n', 'd', 'e', 'f', 'i', 'n', 'e', 'd']);
                }
                r
            },
            RawValue::Null => {
                let r = vec!['n', 'u', 'l', 'l'];
                proof {
                    assert(r@ =~= seq!['n', 'u', 'l', 'l']);
                }
                r
            },
            RawValue::List(items) => {
                let r = list_chars(items, 0);
                proof {
                    broadcast use lemma_vals_view;

                    assert(vals_view(items@).skip(0) =~= vals_view(items@));
                }
                r
            },
            RawValue::Object(_) => {
                let r = vec![
                    '[', 'o', 'b', 'j', 'e', 'c', 't', ' ', 'O', 'b', 'j', 'e', 'c', 't', ']',
                ];
                proof {
                    assert(r@ =~= seq![
                        '[', 'o', 'b', 'j', 'e', 'c', 't', ' ', 'O', 'b', 'j', 'e', 'c', 't', ']',
                    ]);
                }
                r
            },
            RawValue::Function(_) => {
                let r = vec!['[', 'f', 'u', 'n', 'c', 't', 'i', 'o', 'n', ']'];
                proof {
                    assert(r@ =~= seq!['[', 'f', 'u', 'n', 'c', 't', 'i', 'o', 'n', ']']);
                }
                r
            },
        }
    }

    /// The rendered text of this value, consuming it.
    pub fn into_string(self) -> (r: String)
        ensures
            r@ == rv_str(self@),
    {
        let chars = self.to_chars();
        chars_string(&chars)
    }

    /// Whether this value equals another, by the rule of [`rv_eq`].
    pub fn equals(&self, other: &RawValue) -> (r: bool)
        ensures
            r == rv_eq(self@, other@),
        decreases *self, 0int,
    {
        match (self, other) {
            (RawValue::Str(x), RawValue::Str(y)) => str_eq(x.as_str(), y.as_str()),
            (RawValue::Num(x), RawValue::Num(y)) => str_eq(x.as_str(), y.as_str()),
            (RawValue::Bool(x), RawValue::Bool(y)) => *x == *y,
            (RawValue::Null, RawValue::Null) => true,
            (RawValue::Undefined, RawValue::Undefined) => true,
            (RawValue::List(x), RawValue::List(y)) => {
                proof {
                    broadcast use lemma_vals_view;

                    lemma_list_eqv(vals_view(x@), vals_view(y@));
                }
                if x.len() != y.len() {
                    return false;
                }
                let n = x.len();
                let mut i: usize = 0;
                while i < n
                    invariant
                        i <= n,
                        n == x.len() == y.len(),
                        forall|j: int| 0 <= j < i ==> rv_eq(vals_view(x@)[j], vals_view(y@)[j]),
                    decreases n - i,
                {
                    let same = x[i].equals(&y[i]);
                    proof {
                        assert(vals_view(x@)[i as int] == rv_view(x@[i as int]));
                        assert(vals_view(y@)[i as int] == rv_view(y@[i as int]));
                    }
                    if !same {
                        return false;
                    }
                    i += 1;
                }
                true
            },
            _ => false,
        }
    }
}

/// Clones every element of a list of values.
fn clone_list(items: &Vec<RawValue>) -> (r: Vec<RawValue>)
    ensures
        r@.len() == items@.len(),
        forall|i: int| 0 <= i < items@.len() ==> #[trigger] rv_view(r@[i]) == rv_view(items@[i]),
        vals_view(r@) == vals_view(items@),
    decreases *items, 1int, 0int,
{
    let mut r: Vec<RawValue> = Vec::new();
    let n = items.len();
    let mut i: usize = 0;
    while i < n
        invariant
            i <= n,
            n == items.len(),
            r@.len() == i,
            forall|j: int| 0 <= j < i ==> #[trigger] rv_view(r@[j]) == rv_view(items@[j]),
        decreases n - i,
    {
        let c = items[i].clone();
        r.push(c);
        i += 1;
    }
    proof {
        broadcast use lemma_vals_view;

        assert forall|i: int| 0 <= i < items@.len() implies vals_view(r@)[i] == vals_view(
            items@,
        )[i] by {
            assert(vals_view(r@)[i] == rv_view(r@[i]));
            assert(vals_view(items@)[i] == rv_view(items@[i]));
        }
        assert(vals_view(r@) =~= vals_view(items@));
    }
    r
}

/// The texts of the elements of `items` from index `from` on, joined by
/// `", "`.
fn list_chars(items: &Vec<RawValue>, from: usize) -> (r: Vec<char>)
    requires
        from <= items@.len(),
    ensures
        r@ == list_str(vals_view(items@).skip(from as int)),
    decreases *items, 1int, items@.len() - from,
{
    proof {
        broadcast use lemma_vals_view;

    }
    let mut r: Vec<char> = Vec::new();
    if from == items.len() {
        proof {
            assert(vals_view(items@).skip(from as int) =~= Seq::<Val>::empty());
        }
        return r;
    }
    let mut head = items[from].to_chars();
    r.append(&mut head);
    proof {
        assert(vals_view(items@).skip(from as int).first() == vals_view(items@)[from as int]);
    }
    if from + 1 == items.len() {
        proof {
            assert(vals_view(items@).skip(from as int).len() == 1);
        }
        return r;
    }
    r.push(',');
    r.push(' ');
    let mut rest = list_chars(items, from + 1);
    r.append(&mut rest);
    proof {
        let s = vals_view(items@).skip(from as int);
        assert(s.drop_first() =~= vals_view(items@).skip(from as int + 1));
        assert(r@ =~= rv_str(s.first()) + seq![',', ' '] + list_str(s.drop_first()));
    }
    r
}

/// The characters of `v` between `from` and `to`.
pub(crate) fn subvec(v: &Vec<char>, from: usize, to: usize) -> (r: Vec<char>)
    requires
        from <= to <= v@.len(),
    ensures
        r@ == v@.subrange(from as int, to as int),
{
    let mut r: Vec<char> = Vec::new();
    let mut i = from;
    while i < to
        invariant
            from <= i <= to <= v@.len(),
            r@ == v@.subrange(from as int, i as int),
        decreases to - i,
    {
        r.push(v[i]);
        proof {
            assert(v@.subrange(from as int, i + 1) =~= v@.subrange(from as int, i as int).push(
                v@[i as int],
            ));
        }
        i += 1;
    }
    r
}

/// The first index at or after `from` holding a dot, or the length.
fn find_dot(v: &Vec<char>, from: usize) -> (r: usize)
    requires
        from <= v@.len(),
    ensures
        from <= r <= v@.len(),
        forall|j: int| from <= j < r ==> v@[j] != '.',
        r < v@.len() ==> v@[r as int] == '.',
{
    let mut i = from;
    while i < v.len()
        invariant
            from <= i <= v@.len(),
            forall|j: int| from <= j < i ==> v@[j] != '.',
        decreases v@.len() - i,
    {
        if v[i] == '.' {
            return i;
        }
        i += 1;
    }
    i
}

/// Lexicographic comparison of two character vectors, as [`lex_cmp`].
fn lex_cmp_exec(a: &Vec<char>, b: &Vec<char>) -> (r: core::cmp::Ordering)
    ensures
        r == lex_cmp(a@, b@),
{
    let an = a.len();
    let bn = b.len();
    proof {
        assert(a@.skip(0) =~= a@);
        assert(b@.skip(0) =~= b@);
    }
    let mut i: usize = 0;
    while i < an && i < bn
        invariant
            i <= an == a@.len(),
            i <= bn == b@.len(),
            lex_cmp(a@, b@) == lex_cmp(a@.skip(i as int), b@.skip(i as int)),
        decreases an - i,
    {
        proof {
            assert(a@.skip(i as int)[0] == a@[i as int]);
            assert(b@.skip(i as int)[0] == b@[i as int]);
        }
        if (a[i] as u32) < (b[i] as u32) {
            return core::cmp::Ordering::Less;
        }
        if (a[i] as u32) > (b[i] as u32) {
            return core::cmp::Ordering::Greater;
        }
        proof {
            assert(a@.skip(i as int).drop_first() =~= a@.skip(i + 1));
            assert(b@.skip(i as int).drop_first() =~= b@.skip(i + 1));
        }
        i += 1;
    }
    proof {
        assert(a@.skip(i as int).len() == an - i);
        assert(b@.skip(i as int).len() == bn - i);
    }
    if an == bn {
        core::cmp::Ordering::Equal
    } else if an < bn {
        core::cmp::Ordering::Less
    } else {
        core::cmp::Ordering::Greater
    }
}

/// Ordering of two unsigned canonical number texts, as [`mag_cmp`].
fn mag_cmp_exec(x: &Vec<char>, y: &Vec<char>) -> (r: core::cmp::Ordering)
    ensures
        r == mag_cmp(x@, y@),
{
    let dx = find_dot(x, 0);
    let dy = find_dot(y, 0);
    let xi = subvec(x, 0, dx);
    let yi = subvec(y, 0, dy);
    let xf = if dx < x.len() {
        subvec(x, dx + 1, x.len())
    } else {
        Vec::new()
    };
    let yf = if dy < y.len() {
        subvec(y, dy + 1, y.len())
    } else {
        Vec::new()
    };
    proof {
        lemma_split_dot(x@, dx as int);
        lemma_split_dot(y@, dy as int);
    }
    if xi.len() < yi.len() {
        core::cmp::Ordering::Less
    } else if xi.len() > yi.len() {
        core::cmp::Ordering::Greater
    } else {
        match lex_cmp_exec(&xi, &yi) {
            core::cmp::Ordering::Equal => lex_cmp_exec(&xf, &yf),
            core::cmp::Ordering::Less => core::cmp::Ordering::Less,
            core::cmp::Ordering::Greater => core::cmp::Ordering::Greater,
        }
    }
}

/// Numeric ordering of two values. Both must be numbers; anything else is a
/// [`FinchError::NotNumbers`] error. Number values are ordered as
/// [`num_cmp`] orders their canonical texts.
pub fn compare_vals(left: &RawValue, right: &RawValue) -> (r: Result<
    core::cmp::Ordering,
    FinchError,
>)
    ensures
        match (left@, right@) {
            (Val::Num(a), Val::Num(b)) => r matches Ok(o) && o == num_cmp(a, b),
            _ => r matches Err(e) && e@ == ErrV::NotNumbers,
        },
{
    match (left, right) {
        (RawValue::Num(a), RawValue::Num(b)) => {
            let av = str_chars(a.as_str());
            let bv = str_chars(b.as_str());
            let aneg = av.len() > 0 && av[0] == '-';
            let bneg = bv.len() > 0 && bv[0] == '-';
            if aneg && !bneg {
                Ok(core::cmp::Ordering::Less)
            } else if !aneg && bneg {
                Ok(core::cmp::Ordering::Greater)
            } else {
                let am = if aneg {
                    subvec(&av, 1, av.len())
                } else {
                    subvec(&av, 0, av.len())
                };
                let bm = if bneg {
                    subvec(&bv, 1, bv.len())
                } else {
                    subvec(&bv, 0, bv.len())
                };
                proof {
                    assert(av@.subrange(0, av@.len() as int) =~= av@);
                    assert(bv@.subrange(0, bv@.len() as int) =~= bv@);
                    assert(am@ == magnitude(a@));
                    assert(bm@ == magnitude(b@));
                }
                if aneg {
                    Ok(mag_cmp_exec(&bm, &am))
                } else {
                    Ok(mag_cmp_exec(&am, &bm))
                }
            }
        },
        _ => Err(FinchError::NotNumbers),
    }
}

} // verus!
