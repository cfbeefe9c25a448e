//! The items an actor can pick up and the count kept of each.

use vstd::prelude::*;
use vstd::string::StringExecFns;

verus! {

/// Pickup radius, in fixed-point steps, of an item that names none of its
/// own: forty world units.
pub const DEFAULT_PICKUP_RADIUS: i32 = 400_000;

/// Items that can be stored in an inventory.
#[derive(Clone, Copy, Debug, PartialEq, Eq, Hash, Structural)]
pub enum ItemKind {
    TreeStump2,
    Plant1,
    Plant2,
    Plant3,
    Plant4,
}

impl ItemKind {
    /// The name under which this kind of item is shown.
    pub open spec fn name(self) -> Seq<char> {
        match self {
            ItemKind::TreeStump2 => "tree_stump_2"@,
            ItemKind::Plant1 => "plant_1"@,
            ItemKind::Plant2 => "plant_2"@,
            ItemKind::Plant3 => "plant_3"@,
            ItemKind::Plant4 => "plant_4"@,
        }
    }

    /// The kinds in the order of their names, which is the order in which a
    /// summary lists them.
    pub open spec fn listed() -> Seq<ItemKind> {
        seq![
            ItemKind::Plant1,
            ItemKind::Plant2,
            ItemKind::Plant3,
            ItemKind::Plant4,
            ItemKind::TreeStump2,
        ]
    }

    /// The name under which this kind of item is shown.
    pub fn display_name(&self) -> (name: &'static str)
        ensures
            name@ == self.name(),
    {
        match self {
            ItemKind::TreeStump2 => "tree_stump_2",
            ItemKind::Plant1 => "plant_1",
            ItemKind::Plant2 => "plant_2",
            ItemKind::Plant3 => "plant_3",
            ItemKind::Plant4 => "plant_4",
        }
    }

    /// Position of this kind in `listed()`.
    fn slot(&self) -> (i: usize)
        ensures
            i < 5,
            Self::listed()[i as int] == *self,
    {
        match self {
            ItemKind::Plant1 => 0,
            ItemKind::Plant2 => 1,
            ItemKind::Plant3 => 2,
            ItemKind::Plant4 => 3,
            ItemKind::TreeStump2 => 4,
        }
    }

    /// The kind at position `i` of `listed()`.
    fn at_slot(i: usize) -> (kind: ItemKind)
        requires
            i < 5,
        ensures
            kind == Self::listed()[i as int],
    {
        match i {
            0 => ItemKind::Plant1,
            1 => ItemKind::Plant2,
            2 => ItemKind::Plant3,
            3 => ItemKind::Plant4,
            _ => ItemKind::TreeStump2,
        }
    }
}

/// An item that lies in the world and is collected by an actor that comes
/// within `radius` of it.
#[derive(Clone, Copy, Debug, PartialEq, Eq, Structural)]
pub struct Pickable {
    pub kind: ItemKind,
    /// Pickup distance in fixed-point steps.
    pub radius: i32,
}

impl Pickable {
    /// An item of the given kind with the default pickup radius.
    pub fn new(kind: ItemKind) -> (item: Pickable)
        ensures
            item.kind == kind,
            item.radius == DEFAULT_PICKUP_RADIUS,
    {
        Pickable { kind, radius: DEFAULT_PICKUP_RADIUS }
    }
}

/// The character that stands for the digit `d`.
pub open spec fn digit(d: int) -> char {
    if d == 0 {
        '0'
    } else if d == 1 {
        '1'
    } else if d == 2 {
        '2'
    } else if d == 3 {
        '3'
    } else if d == 4 {
        '4'
    } else if d == 5 {
        '5'
    } else if d == 6 {
        '6'
    } else if d == 7 {
        '7'
    } else if d == 8 {
        '8'
    } else {
        '9'
    }
}

/// The decimal numeral of `n`, without leading zeros.
pub open spec fn decimal(n: nat) -> Seq<char>
    decreases n,
{
    if n < 10 {
        seq![digit(n as int)]
    } else {
        decimal(n / 10).push(digit((n % 10) as int))
    }
}

/// One entry of a summary: the name, a colon, a space and the count.
pub open spec fn entry_text(kind: ItemKind, count: nat) -> Seq<char> {
    kind.name() + ": "@ + decimal(count)
}

/// Whether two texts agree before place `k` and `a` is the lesser at it:
/// it has the character with the smaller code there, or it ends there and
/// `b` goes on.
pub open spec fn lesser_at(a: Seq<char>, b: Seq<char>, k: int) -> bool {
    &&& 0 <= k <= a.len()
    &&& k < b.len()
    &&& forall|i: int| 0 <= i < k ==> a[i] == b[i]
    &&& k == a.len() || (a[k] as u32) < (b[k] as u32)
}

/// Whether `a` comes before `b` in the order in which texts are sorted.
pub open spec fn sorts_before(a: Seq<char>, b: Seq<char>) -> bool {
    exists|k: int| lesser_at(a, b, k)
}

/// The entries of a summary stand in sorted order, whatever the counts:
/// the entry of a kind comes before that of every kind listed after it.
pub proof fn lemma_listing_is_sorted(i: int, j: int, m: nat, n: nat)
    requires
        0 <= i < j < 5,
    ensures
        sorts_before(entry_text(ItemKind::listed()[i], m), entry_text(ItemKind::listed()[j], n)),
{
    reveal_strlit("tree_stump_2");
    reveal_strlit("plant_1");
    reveal_strlit("plant_2");
    reveal_strlit("plant_3");
    reveal_strlit("plant_4");
    let first = ItemKind::listed()[i];
    let second = ItemKind::listed()[j];
    let a = entry_text(first, m);
    let b = entry_text(second, n);
    let k = if j == 4 {
        0int
    } else {
        6int
    };
    assert(first.name().len() == 7);
    assert(second.name().len() >= 7);
    assert forall|p: int| 0 <= p < 7 implies a[p] == first.name()[p] && b[p] == second.name()[p] by {}
    assert(lesser_at(a, b, k));
}

/// The one-character text of the digit `d`.
fn digit_text(d: u32) -> (text: &'static str)
    requires
        d < 10,
    ensures
        text@ == seq![digit(d as int)],
{
    proof {
        reveal_strlit("0");
        reveal_strlit("1");
        reveal_strlit("2");
        reveal_strlit("3");
        reveal_strlit("4");
        reveal_strlit("5");
        reveal_strlit("6");
        reveal_strlit("7");
        reveal_strlit("8");
        reveal_strlit("9");
    }
    let text = match d {
        0 => "0",
        1 => "1",
        2 => "2",
        3 => "3",
        4 => "4",
        5 => "5",
        6 => "6",
        7 => "7",
        8 => "8",
        _ => "9",
    };
    assert(text@ =~= seq![digit(d as int)]);
    text
}

/// Appends the decimal numeral of `n` to `text`.
fn append_decimal(text: &mut String, n: u32)
    ensures
        final(text)@ == old(text)@ + decimal(n as nat),
    decreases n,
{
    if n >= 10 {
        append_decimal(text, n / 10);
    }
    text.append(digit_text(n % 10));
    assert(text@ =~= old(text)@ + decimal(n as nat));
}

/// The collected items: how many of each kind.
#[derive(Debug)]
pub struct Inventory {
    counts: Vec<u32>,
}

impl Inventory {
    #[verifier::type_invariant]
    spec fn inv(self) -> bool {
        self.counts@.len() == 5
    }

    /// How many items of kind `kind` have been collected.
    pub closed spec fn count(self, kind: ItemKind) -> nat {
        if kind == ItemKind::Plant1 {
            self.counts@[0] as nat
        } else if kind == ItemKind::Plant2 {
            self.counts@[1] as nat
        } else if kind == ItemKind::Plant3 {
            self.counts@[2] as nat
        } else if kind == ItemKind::Plant4 {
            self.counts@[3] as nat
        } else {
            self.counts@[4] as nat
        }
    }

    /// The entries of the first `upto` kinds of `ItemKind::listed()` of
    /// which there is at least one item, each as `entry_text` gives it, with
    /// a comma and a space between one entry and the next.
    pub open spec fn listing(self, upto: int) -> Seq<char>
        decreases upto,
    {
        if upto <= 0 {
            Seq::empty()
        } else {
            let before = self.listing(upto - 1);
            let kind = ItemKind::listed()[upto - 1];
            if self.count(kind) == 0 {
                before
            } else if before.len() == 0 {
                entry_text(kind, self.count(kind))
            } else {
                before + ", "@ + entry_text(kind, self.count(kind))
            }
        }
    }

    /// The text that describes the inventory: `empty` if nothing has been
    /// collected, else the listing of all kinds.
    pub open spec fn summary_text(self) -> Seq<char> {
        if self.listing(5).len() == 0 {
            "empty"@
        } else {
            self.listing(5)
        }
    }

    /// An inventory that holds nothing.
    pub fn new() -> (inventory: Inventory)
        ensures
            forall|kind: ItemKind| inventory.count(kind) == 0,
    {
        let mut counts: Vec<u32> = Vec::new();
        counts.push(0);
        counts.push(0);
        counts.push(0);
        counts.push(0);
        counts.push(0);
        Inventory { counts }
    }

    /// How many items of kind `kind` have been collected.
    pub fn quantity(&self, kind: ItemKind) -> (n: u32)
        ensures
            n == self.count(kind),
    {
        proof {
            use_type_invariant(self);
        }
        self.counts[kind.slot()]
    }

    /// Adds one item of kind `kind` and returns how many of that kind there
    /// are now. The count must have room for one more.
    pub fn add(&mut self, kind: ItemKind) -> (n: u32)
        requires
            old(self).count(kind) < u32::MAX,
        ensures
            n == old(self).count(kind) + 1,
            final(self).count(kind) == n,
            forall|other: ItemKind| other != kind ==> final(self).count(other) == old(self).count(other),
    {
        proof {
            use_type_invariant(&*self);
        }
        let slot = kind.slot();
        let n: u32 = self.counts[slot] + 1;
        self.counts[slot] = n;
        n
    }

    /// Describes the inventory in one line: `empty`, or an entry
    /// `name: count` for each kind of which there is at least one item,
    /// separated by a comma and a space. The entries stand in sorted order.
    pub fn summary(&self) -> (text: String)
        ensures
            text@ == self.summary_text(),
    {
        proof {
            use_type_invariant(self);
        }
        let mut text = String::new();
        let mut i: usize = 0;
        while i < 5
            invariant
                i <= 5,
                self.counts@.len() == 5,
                text@ == self.listing(i as int),
            decreases 5 - i,
        {
            let kind = ItemKind::at_slot(i);
            let count: u32 = self.counts[i];
            if count > 0 {
                let ghost before = text@;
                if !text.as_str().is_empty() {
                    text.append(", ");
                }
                text.append(kind.display_name());
                text.append(": ");
                append_decimal(&mut text, count);
                proof {
                    let entry = entry_text(kind, count as nat);
                    if before.len() == 0 {
                        assert(text@ =~= entry);
                    } else {
                        assert(text@ =~= before + ", "@ + entry);
                    }
                }
            }
            i = i + 1;
        }
        if text.as_str().is_empty() {
            String::from_str("empty")
        } else {
            text
        }
    }
}

impl Default for Inventory {
    fn default() -> (inventory: Inventory)
        ensures
            forall|kind: ItemKind| inventory.count(kind) == 0,
    {
        Inventory::new()
    }
}

} // verus!
