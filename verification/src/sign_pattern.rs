use vstd::prelude::*;

verus! {

/// The sign of one agent: `+1` or `-1`.
pub open spec fn is_sign(s: i8) -> bool {
    s == 1 || s == -1
}

/// Every entry of `s` is a sign.
pub open spec fn all_signs(s: Seq<i8>) -> bool {
    forall|i: int| 0 <= i < s.len() ==> is_sign(#[trigger] s[i])
}

/// The pattern with every sign flipped.
pub open spec fn flipped(s: Seq<i8>) -> Seq<i8> {
    Seq::new(s.len(), |i: int| (-s[i]) as i8)
}

/// Number of positions `i < n` at which `a` and `b` hold the same sign.
pub open spec fn matches_upto(a: Seq<i8>, b: Seq<i8>, n: nat) -> nat
    decreases n,
{
    if n == 0 {
        0
    } else {
        let k = (n - 1) as nat;
        matches_upto(a, b, k) + if a[k as int] == b[k as int] { 1nat } else { 0nat }
    }
}

/// The dot product of the first `n` signs of `a` and `b`.
pub open spec fn dot_upto(a: Seq<i8>, b: Seq<i8>, n: nat) -> int
    decreases n,
{
    if n == 0 {
        0
    } else {
        let k = (n - 1) as nat;
        dot_upto(a, b, k) + a[k as int] * b[k as int]
    }
}

/// The characters that stand for one sign.
pub open spec fn sign_symbol(s: i8) -> Seq<char> {
    if s == 1 {
        seq!['+']
    } else {
        seq!['-']
    }
}

/// The symbols of `s`, separated by `", "`.
pub open spec fn symbol_list(s: Seq<i8>) -> Seq<char>
    decreases s.len(),
{
    if s.len() == 0 {
        seq![]
    } else if s.len() == 1 {
        sign_symbol(s[0])
    } else {
        symbol_list(s.drop_last()) + seq![',', ' '] + sign_symbol(s.last())
    }
}

/// The text of a pattern: its symbols in square brackets, such as `[+, -, +]`.
pub open spec fn display_text(s: Seq<i8>) -> Seq<char> {
    seq!['['] + symbol_list(s) + seq![']']
}

/// Flipping every sign twice gives the pattern back, and a flipped pattern
/// still holds only signs.
pub proof fn lemma_invert_involution(s: Seq<i8>)
    requires
        all_signs(s),
    ensures
        all_signs(flipped(s)),
        flipped(flipped(s)) == s,
{
    assert(flipped(flipped(s)) =~= s);
}

/// At most `n` of the first `n` positions agree.
pub proof fn lemma_matches_bounded(a: Seq<i8>, b: Seq<i8>, n: nat)
    ensures
        matches_upto(a, b, n) <= n,
    decreases n,
{
    if n > 0 {
        lemma_matches_bounded(a, b, (n - 1) as nat);
    }
}

/// A pattern agrees with itself everywhere.
pub proof fn lemma_matches_self(a: Seq<i8>, n: nat)
    ensures
        matches_upto(a, a, n) == n,
    decreases n,
{
    if n > 0 {
        lemma_matches_self(a, (n - 1) as nat);
    }
}

/// Agreement does not depend on the order of the two patterns.
pub proof fn lemma_matches_symmetric(a: Seq<i8>, b: Seq<i8>, n: nat)
    ensures
        matches_upto(a, b, n) == matches_upto(b, a, n),
    decreases n,
{
    if n > 0 {
        lemma_matches_symmetric(a, b, (n - 1) as nat);
    }
}

/// On each position, a sign agrees with exactly one of `b` and its inversion:
/// the agreements with `b` and with `flipped(b)` add up to `n`.
pub proof fn lemma_matches_complement(a: Seq<i8>, b: Seq<i8>, n: nat)
    requires
        all_signs(a),
        all_signs(b),
        n <= a.len(),
        n <= b.len(),
    ensures
        matches_upto(a, b, n) + matches_upto(a, flipped(b), n) == n,
    decreases n,
{
    if n > 0 {
        let k = (n - 1) as nat;
        lemma_matches_complement(a, b, k);
        assert(is_sign(a[k as int]));
        assert(is_sign(b[k as int]));
    }
}

/// A pattern agrees with its inversion nowhere.
pub proof fn lemma_matches_inverted(a: Seq<i8>, n: nat)
    requires
        all_signs(a),
        n <= a.len(),
    ensures
        matches_upto(a, flipped(a), n) == 0,
{
    lemma_matches_self(a, n);
    lemma_matches_complement(a, a, n);
}

/// The dot product of two sign patterns counts agreements minus disagreements:
/// `dot == 2 * matches - n`, so it lies in `[-n, n]`.
pub proof fn lemma_dot_from_matches(a: Seq<i8>, b: Seq<i8>, n: nat)
    requires
        all_signs(a),
        all_signs(b),
        n <= a.len(),
        n <= b.len(),
    ensures
        dot_upto(a, b, n) == 2 * matches_upto(a, b, n) - n,
        -n <= dot_upto(a, b, n) <= n,
    decreases n,
{
    lemma_matches_bounded(a, b, n);
    if n > 0 {
        let k = (n - 1) as nat;
        lemma_dot_from_matches(a, b, k);
        assert(is_sign(a[k as int]));
        assert(is_sign(b[k as int]));
    }
}

/// The agreement count over the first `n` positions is the number of indices
/// `i < n` at which `a[i] == b[i]`.
pub proof fn lemma_matches_counts_agreements(a: Seq<i8>, b: Seq<i8>, n: nat)
    ensures
        matches_upto(a, b, n) == Seq::new(n, |i: int| i).filter(|i: int| a[i] == b[i]).len(),
    decreases n,
{
    reveal(Seq::filter);
    if n > 0 {
        let k = (n - 1) as nat;
        lemma_matches_counts_agreements(a, b, k);
        let idx = Seq::new(n, |i: int| i);
        assert(idx.drop_last() =~= Seq::new(k, |i: int| i));
        assert(idx.last() == k);
    }
}

/// Flipping maps each sign to its negation and keeps the length.
pub proof fn lemma_flipped_entries(s: Seq<i8>)
    requires
        all_signs(s),
    ensures
        flipped(s).len() == s.len(),
        forall|i: int| 0 <= i < s.len() ==> flipped(s)[i] == -s[i],
        forall|i: int| 0 <= i < s.len() ==> (s[i] == 1 <==> flipped(s)[i] == -1),
{
    assert forall|i: int| 0 <= i < s.len() implies flipped(s)[i] == -s[i] by {
        assert(is_sign(s[i]));
    }
}

/// Layout of the symbol list: symbol `i` of the pattern stands at `3 * i`,
/// followed by `", "` when another symbol comes after it.
pub proof fn lemma_symbol_list_layout(s: Seq<i8>)
    ensures
        symbol_list(s).len() == (if s.len() == 0 { 0 } else { 3 * s.len() - 2 }),
        forall|i: int|
            0 <= i < s.len() ==> #[trigger] symbol_list(s)[3 * i] == (if s[i] == 1 { '+' } else { '-' }),
        forall|i: int| 0 <= i < s.len() - 1 ==> #[trigger] symbol_list(s)[3 * i + 1] == ',',
        forall|i: int| 0 <= i < s.len() - 1 ==> #[trigger] symbol_list(s)[3 * i + 2] == ' ',
    decreases s.len(),
{
    if s.len() > 1 {
        let p = s.drop_last();
        lemma_symbol_list_layout(p);
        let l = symbol_list(p);
        let whole = l + seq![',', ' '] + sign_symbol(s.last());
        assert(symbol_list(s) == whole);
        assert forall|i: int| 0 <= i < s.len() implies #[trigger] symbol_list(s)[3 * i] == (
        if s[i] == 1 {
            '+'
        } else {
            '-'
        }) by {
            if i < s.len() - 1 {
                assert(symbol_list(p)[3 * i] == (if p[i] == 1 { '+' } else { '-' }));
            }
        }
        assert forall|i: int| 0 <= i < s.len() - 1 implies #[trigger] symbol_list(s)[3 * i + 1] == ',' by {
            if i < s.len() - 2 {
                assert(symbol_list(p)[3 * i + 1] == ',');
            }
        }
        assert forall|i: int| 0 <= i < s.len() - 1 implies #[trigger] symbol_list(s)[3 * i + 2] == ' ' by {
            if i < s.len() - 2 {
                assert(symbol_list(p)[3 * i + 2] == ' ');
            }
        }
    }
}

/// Layout of the text of a pattern of `n` signs: `'['`, then sign `i` as `'+'`
/// or `'-'` at position `1 + 3 * i` with `", "` between neighbours, then `']'`.
pub proof fn lemma_display_layout(s: Seq<i8>)
    ensures
        display_text(s).len() == (if s.len() == 0 { 2 } else { 3 * s.len() }),
        display_text(s)[0] == '[',
        display_text(s).last() == ']',
        forall|i: int|
            0 <= i < s.len() ==> #[trigger] display_text(s)[1 + 3 * i] == (if s[i] == 1 { '+' } else { '-' }),
        forall|i: int|
            0 <= i < s.len() - 1 ==> #[trigger] display_text(s)[2 + 3 * i] == ',' && display_text(s)[3 + 3 * i] == ' ',
{
    lemma_symbol_list_layout(s);
    let l = symbol_list(s);
    assert forall|i: int| 0 <= i < s.len() implies #[trigger] display_text(s)[1 + 3 * i] == (
    if s[i] == 1 {
        '+'
    } else {
        '-'
    }) by {
        assert(l[3 * i] == (if s[i] == 1 { '+' } else { '-' }));
    }
    assert forall|i: int| 0 <= i < s.len() - 1 implies #[trigger] display_text(s)[2 + 3 * i] == ','
        && display_text(s)[3 + 3 * i] == ' ' by {
        assert(l[3 * i + 1] == ',');
        assert(l[3 * i + 2] == ' ');
    }
}

/// A sign pattern across a fleet: one sign per agent, each `+1` or `-1`.
#[derive(Debug, Clone, PartialEq, Eq)]
pub struct SignPattern {
    /// Signs for each agent: +1 or -1.
    pub signs: Vec<i8>,
}

impl View for SignPattern {
    type V = Seq<i8>;

    open spec fn view(&self) -> Seq<i8> {
        self.signs@
    }
}

impl SignPattern {
    /// Every entry of the pattern is `+1` or `-1`.
    pub open spec fn wf(&self) -> bool {
        all_signs(self@)
    }

    /// Create a new pattern from a vector of signs, each `+1` or `-1`.
    pub fn new(signs: Vec<i8>) -> (p: SignPattern)
        requires
            all_signs(signs@),
        ensures
            p.wf(),
            p@ == signs@,
    {
        SignPattern { signs }
    }

    /// Whether every entry of the pattern is `+1` or `-1`.
    pub fn is_valid(&self) -> (b: bool)
        ensures
            b == self.wf(),
            b == (forall|i: int| 0 <= i < self@.len() ==> self@[i] == 1 || self@[i] == -1),
    {
        let n = self.signs.len();
        let mut i: usize = 0;
        while i < n
            invariant
                n == self@.len(),
                i <= n,
                forall|j: int| 0 <= j < i ==> is_sign(#[trigger] self@[j]),
            decreases n - i,
        {
            let s = self.signs[i];
            if s != 1 && s != -1 {
                assert(!is_sign(self@[i as int]));
                return false;
            }
            i += 1;
        }
        true
    }

    /// Create a pattern if every entry is `+1` or `-1`; `None` otherwise.
    pub fn try_new(signs: Vec<i8>) -> (p: Option<SignPattern>)
        ensures
            p is Some <==> all_signs(signs@),
            p is Some <==> (forall|i: int| 0 <= i < signs@.len() ==> signs@[i] == 1 || signs@[i] == -1),
            p matches Some(q) ==> q.wf() && q@ == signs@,
    {
        let candidate = SignPattern { signs };
        if candidate.is_valid() {
            Some(candidate)
        } else {
            None
        }
    }

    /// Number of agents in this pattern.
    pub fn len(&self) -> (n: usize)
        ensures
            n == self@.len(),
    {
        self.signs.len()
    }

    /// Returns `true` if this pattern is empty.
    pub fn is_empty(&self) -> (b: bool)
        ensures
            b == (self@.len() == 0),
    {
        self.signs.len() == 0
    }

    /// The sign at index `i`, or `None` past the end.
    pub fn get(&self, i: usize) -> (r: Option<i8>)
        ensures
            r == (if i < self@.len() { Some(self@[i as int]) } else { None::<i8> }),
    {
        if i < self.signs.len() {
            Some(self.signs[i])
        } else {
            None
        }
    }

    /// The pattern of `n` agents that are all `+1`.
    pub fn zeros(n: usize) -> (p: SignPattern)
        ensures
            p.wf(),
            p@ == Seq::new(n as nat, |i: int| 1i8),
    {
        let mut signs: Vec<i8> = Vec::new();
        let mut i: usize = 0;
        while i < n
            invariant
                i <= n,
                signs@ == Seq::new(i as nat, |j: int| 1i8),
            decreases n - i,
        {
            signs.push(1);
            i += 1;
        }
        SignPattern { signs }
    }

    /// Flip all signs.
    pub fn invert(&self) -> (p: SignPattern)
        requires
            self.wf(),
        ensures
            p.wf(),
            p@ == flipped(self@),
            p@.len() == self@.len(),
            forall|i: int| 0 <= i < self@.len() ==> #[trigger] p@[i] == -self@[i],
    {
        let n = self.signs.len();
        let mut signs: Vec<i8> = Vec::new();
        let mut i: usize = 0;
        while i < n
            invariant
                n == self@.len(),
                self.wf(),
                i <= n,
                signs@ == flipped(self@).take(i as int),
            decreases n - i,
        {
            assert(is_sign(self@[i as int]));
            let s = self.signs[i];
            signs.push(-s);
            assert(signs@ =~= flipped(self@).take(i + 1));
            i += 1;
        }
        assert(signs@ =~= flipped(self@));
        proof {
            lemma_flipped_entries(self@);
        }
        SignPattern { signs }
    }

    /// Number of the first `m` agents whose signs agree in the two patterns.
    pub fn matching_prefix(&self, other: &SignPattern, m: usize) -> (c: usize)
        requires
            m <= self@.len(),
            m <= other@.len(),
        ensures
            c == matches_upto(self@, other@, m as nat),
            c == Seq::new(m as nat, |i: int| i).filter(|i: int| self@[i] == other@[i]).len(),
            c <= m,
    {
        let mut c: usize = 0;
        let mut i: usize = 0;
        while i < m
            invariant
                m <= self@.len(),
                m <= other@.len(),
                i <= m,
                c == matches_upto(self@, other@, i as nat),
                c <= i,
            decreases m - i,
        {
            if self.signs[i] == other.signs[i] {
                c += 1;
            }
            i += 1;
        }
        proof {
            lemma_matches_counts_agreements(self@, other@, m as nat);
        }
        c
    }

    /// Number of agents whose signs agree in two patterns of the same length:
    /// the numerator of the Hamming agreement ratio.
    pub fn agreement_count(&self, other: &SignPattern) -> (c: usize)
        requires
            self@.len() == other@.len(),
        ensures
            c == matches_upto(self@, other@, self@.len()),
            c == Seq::new(self@.len(), |i: int| i).filter(|i: int| self@[i] == other@[i]).len(),
            c <= self@.len(),
    {
        self.matching_prefix(other, self.signs.len())
    }

    /// The pattern as text: `[+, -, +]`.
    pub fn to_string(&self) -> (t: String)
        requires
            self.wf(),
        ensures
            t@ == display_text(self@),
            t@.len() == (if self@.len() == 0 { 2 } else { 3 * self@.len() }),
            t@[0] == '[',
            t@.last() == ']',
            forall|i: int|
                0 <= i < self@.len() ==> #[trigger] t@[1 + 3 * i] == (if self@[i] == 1 { '+' } else { '-' }),
            forall|i: int|
                0 <= i < self@.len() - 1 ==> #[trigger] t@[2 + 3 * i] == ',' && t@[3 + 3 * i] == ' ',
    {
        proof {
            reveal_strlit("[");
            reveal_strlit("]");
        }
        let n = self.signs.len();
        let mut t = String::new();
        t.append("[");
        let mut i: usize = 0;
        while i < n
            invariant
                n == self@.len(),
                i <= n,
                t@ == seq!['['] + symbol_list(self@.take(i as int)),
            decreases n - i,
        {
            let ghost before = t@;
            if i > 0 {
                t.append(", ");
            }
            if self.signs[i] == 1 {
                t.append("+");
            } else {
                t.append("-");
            }
            proof {
                reveal_strlit(", ");
                reveal_strlit("+");
                reveal_strlit("-");
                let s = self@.take(i + 1);
                assert(s.drop_last() =~= self@.take(i as int));
                assert(s.last() == self@[i as int]);
                assert(self@[i as int] == 1 ==> sign_symbol(self@[i as int]) =~= "+"@);
                assert(self@[i as int] != 1 ==> sign_symbol(self@[i as int]) =~= "-"@);
                if i == 0 {
                    assert(self@.take(0) =~= Seq::<i8>::empty());
                    assert(symbol_list(s) == sign_symbol(s[0]));
                    assert(t@ =~= before + sign_symbol(self@[i as int]));
                } else {
                    assert(symbol_list(s) == symbol_list(s.drop_last()) + seq![',', ' '] + sign_symbol(s.last()));
                    assert(t@ =~= before + seq![',', ' '] + sign_symbol(self@[i as int]));
                }
                assert(t@ =~= seq!['['] + symbol_list(s));
            }
            i += 1;
        }
        t.append("]");
        assert(self@.take(n as int) =~= self@);
        proof {
            lemma_display_layout(self@);
        }
        t
    }
}

} // verus!
