//! Parenthesized groups: where the content of a group ends.
//!
//! The text handed to the scanner begins just behind an opening parenthesis
//! that the caller has read already. The scanner finds the closing
//! parenthesis that belongs to it as it goes, without a pass over the text
//! beforehand. It reads characters and symbols alike.

use vstd::prelude::*;
use crate::symbol::Symbol;

verus! {

/// The part that an item of a text has in the nesting of groups.
#[derive(Debug, Clone, Copy, PartialEq, Eq)]
pub enum Bracket {
    /// It opens a group.
    Opening,
    /// It closes a group.
    Closing,
    /// It does neither.
    Neither,
}

/// The items of a text in which groups are nested.
pub trait Bracketed {
    /// The part of the item in the nesting.
    spec fn bracket(&self) -> Bracket;

    /// Finds the part of the item in the nesting.
    fn read_bracket(&self) -> (b: Bracket)
        ensures
            b == self.bracket(),
    ;
}

impl Bracketed for char {
    open spec fn bracket(&self) -> Bracket {
        if *self == '(' {
            Bracket::Opening
        } else if *self == ')' {
            Bracket::Closing
        } else {
            Bracket::Neither
        }
    }

    fn read_bracket(&self) -> (b: Bracket) {
        if *self == '(' {
            Bracket::Opening
        } else if *self == ')' {
            Bracket::Closing
        } else {
            Bracket::Neither
        }
    }
}

impl Bracketed for Symbol {
    open spec fn bracket(&self) -> Bracket {
        match self {
            Symbol::Open => Bracket::Opening,
            Symbol::Close => Bracket::Closing,
            _ => Bracket::Neither,
        }
    }

    fn read_bracket(&self) -> (b: Bracket) {
        match self {
            Symbol::Open => Bracket::Opening,
            Symbol::Close => Bracket::Closing,
            _ => Bracket::Neither,
        }
    }
}

/// What an item adds to the number of open groups.
pub open spec fn weight(b: Bracket) -> int {
    match b {
        Bracket::Opening => 1,
        Bracket::Closing => -1,
        Bracket::Neither => 0,
    }
}

/// The opening parentheses of `s` less its closing ones.
pub open spec fn excess<T: Bracketed>(s: Seq<T>) -> int
    decreases s.len(),
{
    if s.len() == 0 {
        0
    } else {
        excess(s.drop_last()) + weight(s.last().bracket())
    }
}

/// The parentheses of `s` are correctly nested: no part of `s` from its
/// start closes more than it opened, and `s` as a whole closes all it opened.
pub open spec fn well_nested<T: Bracketed>(s: Seq<T>) -> bool {
    &&& excess(s) == 0
    &&& forall|k: int| 0 <= k <= s.len() ==> excess(#[trigger] s.take(k)) >= 0
}

/// The scan, from position `i` on, with `depth` parentheses open that the
/// scan itself has met. A closing parenthesis met at depth zero ends it;
/// so does the end of a text that is not empty, at depth zero.
pub open spec fn scan<T: Bracketed>(s: Seq<T>, i: nat, depth: nat) -> Option<nat>
    decreases s.len() - i,
{
    if i >= s.len() {
        if depth == 0 && s.len() > 0 {
            Some(s.len())
        } else {
            None
        }
    } else {
        match s[i as int].bracket() {
            Bracket::Opening => scan(s, i + 1, depth + 1),
            Bracket::Closing => if depth == 0 {
                Some(i)
            } else {
                scan(s, i + 1, (depth - 1) as nat)
            },
            Bracket::Neither => scan(s, i + 1, depth),
        }
    }
}

/// Where the content of the group ends whose opening parenthesis stood just
/// before `s`: the length of the content. `None` where `s` is empty or
/// leaves a parenthesis of its own open.
pub open spec fn group_end<T: Bracketed>(s: Seq<T>) -> Option<nat> {
    scan(s, 0, 0)
}

/// Finds the end of a group's content.
pub fn find_group_end<T: Bracketed>(s: &[T]) -> (r: Option<usize>)
    ensures
        match r {
            Some(k) => group_end(s@) == Some(k as nat),
            None => group_end(s@) is None,
        },
{
    let n = s.len();
    let mut i: usize = 0;
    let mut depth: usize = 0;
    while i < n
        invariant
            n == s@.len(),
            i <= n,
            depth <= i,
            group_end(s@) == scan(s@, i as nat, depth as nat),
        decreases n - i,
    {
        match s[i].read_bracket() {
            Bracket::Opening => {
                depth = depth + 1;
            },
            Bracket::Closing => {
                if depth == 0 {
                    return Some(i);
                }
                depth = depth - 1;
            },
            Bracket::Neither => {},
        }
        i = i + 1;
    }
    if depth == 0 && n > 0 {
        Some(n)
    } else {
        None
    }
}

/// One item more adds its weight to the excess.
pub proof fn lemma_excess_step<T: Bracketed>(s: Seq<T>, i: int)
    requires
        0 <= i < s.len(),
    ensures
        excess(s.take(i + 1)) == excess(s.take(i)) + weight(s[i].bracket()),
{
    assert(s.take(i + 1).drop_last() =~= s.take(i));
}

proof fn lemma_scan_finds<T: Bracketed>(s: Seq<T>, i: nat, k: nat)
    requires
        i <= k < s.len(),
        s[k as int].bracket() == Bracket::Closing,
        well_nested(s.take(k as int)),
    ensures
        scan(s, i, excess(s.take(i as int)) as nat) == Some(k),
    decreases k - i,
{
    let c = s.take(k as int);
    assert(c.take(i as int) =~= s.take(i as int));
    if i < k {
        lemma_excess_step(s, i as int);
        assert(c.take(i as int + 1) =~= s.take(i as int + 1));
        lemma_scan_finds(s, i + 1, k);
    } else {
        assert(c.take(k as int) =~= c);
    }
}

/// Of a text that begins with correctly nested content, followed by a
/// closing parenthesis, the scanner returns that content: the group ends
/// exactly at that parenthesis, whatever follows it.
pub proof fn law_group_end_of_nested<T: Bracketed>(content: Seq<T>, close: T, rest: Seq<T>)
    requires
        well_nested(content),
        close.bracket() == Bracket::Closing,
    ensures
        group_end(content + seq![close] + rest) == Some(content.len()),
{
    let s = content + seq![close] + rest;
    assert(s.take(content.len() as int) =~= content);
    assert(s.take(0) =~= Seq::<T>::empty());
    lemma_scan_finds(s, 0, content.len());
}

proof fn lemma_scan_sound<T: Bracketed>(s: Seq<T>, i: nat, depth: nat)
    requires
        i <= s.len(),
        depth == excess(s.take(i as int)),
        forall|j: int| 0 <= j <= i ==> excess(#[trigger] s.take(j)) >= 0,
    ensures
        match scan(s, i, depth) {
            Some(k) => {
                &&& i <= k <= s.len()
                &&& well_nested(s.take(k as int))
                &&& k < s.len() ==> s[k as int].bracket() == Bracket::Closing
                &&& k == s.len() ==> s.len() > 0
            },
            None => s.len() == 0 || excess(s) > 0,
        },
    decreases s.len() - i,
{
    if i >= s.len() {
        assert(s.take(i as int) =~= s);
        if depth == 0 && s.len() > 0 {
            assert forall|j: int| 0 <= j <= s.len() implies excess(
                #[trigger] s.take(s.len() as int).take(j),
            ) >= 0 by {
                assert(s.take(s.len() as int).take(j) =~= s.take(j));
            }
        }
    } else if s[i as int].bracket() == Bracket::Closing && depth == 0 {
        assert forall|j: int| 0 <= j <= i implies excess(#[trigger] s.take(i as int).take(j))
            >= 0 by {
            assert(s.take(i as int).take(j) =~= s.take(j));
        }
    } else {
        lemma_excess_step(s, i as int);
        let next: nat = (depth + weight(s[i as int].bracket())) as nat;
        assert forall|j: int| 0 <= j <= i + 1 implies excess(#[trigger] s.take(j)) >= 0 by {
            if j <= i {
            }
        }
        lemma_scan_sound(s, i + 1, next);
    }
}

/// What the scanner returns is the content of a group: correctly nested,
/// and followed by the closing parenthesis of the group, or, where the text
/// ends first, the whole of a text that is not empty. It fails only on the
/// empty text and on a text that leaves a parenthesis open.
pub proof fn law_group_end_sound<T: Bracketed>(s: Seq<T>)
    ensures
        match group_end(s) {
            Some(k) => {
                &&& k <= s.len()
                &&& well_nested(s.take(k as int))
                &&& k < s.len() ==> s[k as int].bracket() == Bracket::Closing
                &&& k == s.len() ==> s.len() > 0
            },
            None => s.len() == 0 || excess(s) > 0,
        },
{
    assert(s.take(0) =~= Seq::<T>::empty());
    lemma_scan_sound(s, 0, 0);
}

/// The excess of a single item is its weight.
pub proof fn lemma_excess_single<T: Bracketed>(item: T)
    ensures
        excess(seq![item]) == weight(item.bracket()),
{
    let s = seq![item];
    assert(s.drop_last() =~= Seq::<T>::empty());
    assert(excess(s.drop_last()) == 0);
    assert(s.last() == item);
}

/// The excess of two texts, one behind the other, is the sum of theirs.
pub proof fn lemma_excess_concat<T: Bracketed>(a: Seq<T>, b: Seq<T>)
    ensures
        excess(a + b) == excess(a) + excess(b),
    decreases b.len(),
{
    if b.len() == 0 {
        assert(a + b =~= a);
    } else {
        assert((a + b).drop_last() =~= a + b.drop_last());
        lemma_excess_concat(a, b.drop_last());
    }
}

/// A text without parentheses has no excess.
pub proof fn lemma_plain_has_no_excess<T: Bracketed>(s: Seq<T>)
    requires
        forall|i: int| 0 <= i < s.len() ==> (#[trigger] s[i]).bracket() == Bracket::Neither,
    ensures
        excess(s) == 0,
    decreases s.len(),
{
    if s.len() > 0 {
        lemma_plain_has_no_excess(s.drop_last());
    }
}

/// A text without parentheses is correctly nested.
pub proof fn lemma_plain_is_nested<T: Bracketed>(s: Seq<T>)
    requires
        forall|i: int| 0 <= i < s.len() ==> (#[trigger] s[i]).bracket() == Bracket::Neither,
    ensures
        well_nested(s),
{
    lemma_plain_has_no_excess(s);
    assert forall|k: int| 0 <= k <= s.len() implies excess(#[trigger] s.take(k)) >= 0 by {
        lemma_plain_has_no_excess(s.take(k));
    }
}

/// Two correctly nested texts, one behind the other, are correctly nested.
pub proof fn lemma_nested_concat<T: Bracketed>(a: Seq<T>, b: Seq<T>)
    requires
        well_nested(a),
        well_nested(b),
    ensures
        well_nested(a + b),
{
    lemma_excess_concat(a, b);
    assert forall|k: int| 0 <= k <= (a + b).len() implies excess(#[trigger] (a + b).take(k))
        >= 0 by {
        if k <= a.len() {
            assert((a + b).take(k) =~= a.take(k));
        } else {
            assert((a + b).take(k) =~= a + b.take(k - a.len()));
            lemma_excess_concat(a, b.take(k - a.len()));
        }
    }
}

/// A correctly nested text between an opening and a closing parenthesis is
/// correctly nested.
pub proof fn lemma_nested_group<T: Bracketed>(open: T, content: Seq<T>, close: T)
    requires
        open.bracket() == Bracket::Opening,
        close.bracket() == Bracket::Closing,
        well_nested(content),
    ensures
        well_nested(seq![open] + content + seq![close]),
{
    let s = seq![open] + content + seq![close];
    lemma_excess_single(open);
    lemma_excess_single(close);
    lemma_excess_concat(seq![open], content);
    lemma_excess_concat(seq![open] + content, seq![close]);
    assert forall|k: int| 0 <= k <= s.len() implies excess(#[trigger] s.take(k)) >= 0 by {
        if k == 0 {
            assert(s.take(0) =~= Seq::<T>::empty());
        } else if k <= content.len() + 1 {
            assert(s.take(k) =~= seq![open] + content.take(k - 1));
            lemma_excess_concat(seq![open], content.take(k - 1));
        } else {
            assert(s.take(k) =~= s);
        }
    }
}

} // verus!
