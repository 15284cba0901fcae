use crate::trusted::draw_below;
use vstd::prelude::*;
use vstd::set_lib::lemma_set_disjoint_lens;
use vstd::set_lib::set_int_range;

verus! {

/// What a scan has found so far, as plain values: one candidate among
/// `count` files looked at.
pub struct Tally {
    pub selected: Option<Seq<char>>,
    pub count: u64,
}

/// One candidate, chosen with equal chance among the `count` files that a
/// scan has looked at so far.
#[derive(Debug)]
pub struct ScanResult {
    pub selected: Option<String>,
    pub count: u64,
}

impl View for ScanResult {
    type V = Tally;

    open spec fn view(&self) -> Tally {
        Tally {
            selected: match self.selected {
                Some(path) => Some(path@),
                None => None,
            },
            count: self.count,
        }
    }
}

/// The sum of two counts, held at the largest count where it would pass it.
pub open spec fn total(a: u64, b: u64) -> u64 {
    if a + b > u64::MAX {
        u64::MAX
    } else {
        (a + b) as u64
    }
}

/// The tally of a scan that has found nothing.
pub open spec fn nothing() -> Tally {
    Tally { selected: None, count: 0 }
}

/// The tally of a scan that has found the one file `path`.
pub open spec fn single(path: Seq<char>) -> Tally {
    Tally { selected: Some(path), count: 1 }
}

/// Two tallies made one, given a number `draw` below the sum of their
/// counts: a tally without files yields to the other; else the candidate of
/// `a` is kept where the draw falls below the count of `a`, the candidate of
/// `b` where it does not; the counts add up.
pub open spec fn combined(a: Tally, b: Tally, draw: u64) -> Tally {
    if total(a.count, b.count) == 0 {
        nothing()
    } else if a.count == 0 {
        b
    } else if b.count == 0 {
        a
    } else if draw < a.count {
        Tally { selected: a.selected, count: total(a.count, b.count) }
    } else {
        Tally { selected: b.selected, count: total(a.count, b.count) }
    }
}

/// Whether `r` is what two tallies can become: their combination for some
/// draw below the sum of their counts.
pub open spec fn may_combine(a: Tally, b: Tally, r: Tally) -> bool {
    exists|draw: u64|
        (total(a.count, b.count) > 0 ==> draw < total(a.count, b.count)) && r == #[trigger] combined(
            a,
            b,
            draw,
        )
}

/// The counts combine in any order and any grouping to the same count.
pub proof fn lemma_count_combines(a: Tally, b: Tally, c: Tally, d1: u64, d2: u64, d3: u64, d4: u64)
    ensures
        combined(a, b, d1).count == total(a.count, b.count),
        combined(a, b, d1).count == combined(b, a, d2).count,
        combined(combined(a, b, d1), c, d2).count == combined(a, combined(b, c, d3), d4).count,
{
}

/// Of the draws below the sum of two counts, as many keep the candidate of
/// `a` as `a` has files, and as many that of `b` as `b` has files.
pub proof fn lemma_draws_by_weight(a: Tally, b: Tally)
    requires
        a.count > 0,
        b.count > 0,
        a.count + b.count <= u64::MAX,
    ensures
        forall|draw: u64|
            set_int_range(0, a.count as int).contains(draw as int) ==> #[trigger] combined(
                a,
                b,
                draw,
            ).selected == a.selected,
        forall|draw: u64|
            set_int_range(a.count as int, a.count + b.count).contains(draw as int)
                ==> #[trigger] combined(a, b, draw).selected == b.selected,
        set_int_range(0, a.count as int).len() == a.count,
        set_int_range(a.count as int, a.count + b.count).len() == b.count,
{
    vstd::set_lib::lemma_int_range(0, a.count as int);
    vstd::set_lib::lemma_int_range(a.count as int, a.count + b.count);
}

/// The order in which single files are combined into one tally: a file by
/// itself, or two groups of files joined.
pub enum Grouping {
    Leaf,
    Join(Box<Grouping>, Box<Grouping>),
}

/// The draws made while a group is combined: none for a file by itself;
/// for a join, the draws made inside either part and the draw of the join.
pub enum Draws {
    Leaf,
    Join(Box<Draws>, Box<Draws>, u64),
}

impl Grouping {
    /// The number of files in the group.
    pub open spec fn leaves(self) -> nat
        decreases self,
    {
        match self {
            Grouping::Leaf => 1,
            Grouping::Join(left, right) => left.leaves() + right.leaves(),
        }
    }

    /// Whether `draws` are draws that combining the group can make: of
    /// the shape of the group, and at every join a number below the number
    /// of files joined.
    pub open spec fn fits(self, draws: Draws) -> bool
        decreases self,
    {
        match self {
            Grouping::Leaf => draws is Leaf,
            Grouping::Join(left, right) => match draws {
                Draws::Join(first, second, draw) => left.fits(*first) && right.fits(*second)
                    && draw < self.leaves(),
                Draws::Leaf => false,
            },
        }
    }

    /// The tally of the group over the files `paths`, combined with the
    /// draws `draws`.
    pub open spec fn tally(self, paths: Seq<Seq<char>>, draws: Draws) -> Tally
        decreases self,
    {
        match self {
            Grouping::Leaf => single(paths[0]),
            Grouping::Join(left, right) => match draws {
                Draws::Join(first, second, draw) => combined(
                    left.tally(paths.take(left.leaves() as int), *first),
                    right.tally(paths.skip(left.leaves() as int), *second),
                    draw,
                ),
                Draws::Leaf => nothing(),
            },
        }
    }

    /// The place of the file that the draws `draws` select.
    pub open spec fn chosen(self, draws: Draws) -> nat
        decreases self,
    {
        match self {
            Grouping::Leaf => 0,
            Grouping::Join(left, right) => match draws {
                Draws::Join(first, second, draw) => if draw < left.leaves() {
                    left.chosen(*first)
                } else {
                    left.leaves() + right.chosen(*second)
                },
                Draws::Leaf => 0,
            },
        }
    }

    /// All the ways the draws can fall.
    pub open spec fn all_draws(self) -> Set<Draws> {
        Set::new(|draws: Draws| self.fits(draws))
    }

    /// The ways the draws can fall that select the file at place `i`.
    pub open spec fn draws_for(self, i: nat) -> Set<Draws> {
        Set::new(|draws: Draws| self.fits(draws) && self.chosen(draws) == i)
    }

    /// The number of ways the draws can fall.
    pub open spec fn outcomes(self) -> nat
        decreases self,
    {
        match self {
            Grouping::Leaf => 1,
            Grouping::Join(left, right) => left.outcomes() * right.outcomes() * self.leaves(),
        }
    }

    /// The number of ways the draws can fall that select the file at place
    /// `i`.
    pub open spec fn favourable(self, i: nat) -> nat
        decreases self,
    {
        match self {
            Grouping::Leaf => 1,
            Grouping::Join(left, right) => if i < left.leaves() {
                left.favourable(i) * right.outcomes() * left.leaves()
            } else {
                left.outcomes() * right.favourable((i - left.leaves()) as nat) * right.leaves()
            },
        }
    }
}

/// A group has at least one file.
pub proof fn lemma_grouping_sizes(grouping: Grouping)
    ensures
        grouping.leaves() >= 1,
    decreases grouping,
{
    match grouping {
        Grouping::Leaf => {},
        Grouping::Join(left, right) => {
            lemma_grouping_sizes(*left);
            lemma_grouping_sizes(*right);
        },
    }
}

/// Draws that fit select one of the files.
pub proof fn lemma_chosen_in_range(grouping: Grouping, draws: Draws)
    requires
        grouping.fits(draws),
    ensures
        grouping.chosen(draws) < grouping.leaves(),
    decreases grouping,
{
    match grouping {
        Grouping::Leaf => {},
        Grouping::Join(left, right) => {
            match draws {
                Draws::Join(first, second, draw) => {
                    lemma_chosen_in_range(*left, *first);
                    lemma_chosen_in_range(*right, *second);
                },
                Draws::Leaf => {},
            }
        },
    }
}

/// Whatever the grouping: the tally counts every file, and its candidate is
/// the file at the place that the draws select.
pub proof fn lemma_tally_selects(grouping: Grouping, paths: Seq<Seq<char>>, draws: Draws)
    requires
        paths.len() == grouping.leaves(),
        paths.len() <= u64::MAX,
        grouping.fits(draws),
    ensures
        grouping.chosen(draws) < paths.len(),
        grouping.tally(paths, draws).count == paths.len(),
        grouping.tally(paths, draws).selected == Some(paths[grouping.chosen(draws) as int]),
    decreases grouping,
{
    match grouping {
        Grouping::Leaf => {},
        Grouping::Join(left, right) => {
            match draws {
                Draws::Join(first, second, draw) => {
                    lemma_grouping_sizes(*left);
                    lemma_grouping_sizes(*right);
                    lemma_tally_selects(*left, paths.take(left.leaves() as int), *first);
                    lemma_tally_selects(*right, paths.skip(left.leaves() as int), *second);
                },
                Draws::Leaf => {},
            }
        },
    }
}

/// The draws of a join whose parts' draws come from `lefts` and `rights`
/// and whose own draw lies from `low` up to, but not at, `high`.
pub open spec fn joined(lefts: Set<Draws>, rights: Set<Draws>, low: nat, high: nat) -> Set<Draws> {
    Set::new(
        |draws: Draws|
            match draws {
                Draws::Join(first, second, draw) => lefts.contains(*first) && rights.contains(
                    *second,
                ) && low <= draw < high,
                Draws::Leaf => false,
            },
    )
}

proof fn lemma_joined_one(first: Draws, second: Draws, low: nat, high: nat)
    requires
        low <= high <= u64::MAX + 1,
    ensures
        joined(set![first], set![second], low, high).finite(),
        joined(set![first], set![second], low, high).len() == high - low,
    decreases high - low,
{
    let all = joined(set![first], set![second], low, high);
    if low == high {
        assert(all =~= Set::<Draws>::empty());
    } else {
        let top = (high - 1) as nat;
        lemma_joined_one(first, second, low, top);
        let rest = joined(set![first], set![second], low, top);
        let last = Draws::Join(Box::new(first), Box::new(second), top as u64);
        assert(all =~= rest.insert(last));
    }
}

proof fn lemma_joined_right(first: Draws, rights: Set<Draws>, low: nat, high: nat)
    requires
        rights.finite(),
        low <= high <= u64::MAX + 1,
    ensures
        joined(set![first], rights, low, high).finite(),
        joined(set![first], rights, low, high).len() == rights.len() * (high - low),
    decreases rights.len(),
{
    let all = joined(set![first], rights, low, high);
    if rights.len() == 0 {
        rights.lemma_len0_is_empty();
        assert(all =~= Set::<Draws>::empty());
        assert(rights.len() * (high - low) == 0) by (nonlinear_arith)
            requires
                rights.len() == 0,
        ;
    } else {
        let second = rights.choose();
        let others = rights.remove(second);
        lemma_joined_right(first, others, low, high);
        lemma_joined_one(first, second, low, high);
        let rest = joined(set![first], others, low, high);
        let one = joined(set![first], set![second], low, high);
        assert(all =~= rest + one);
        assert(rest.disjoint(one));
        lemma_set_disjoint_lens(rest, one);
        assert(rights.len() * (high - low) == others.len() * (high - low) + (high - low))
            by (nonlinear_arith)
            requires
                rights.len() == others.len() + 1,
        ;
    }
}

/// The number of draws a join can make is the product of the numbers of
/// draws its parts can make and the number of draws of the join itself.
proof fn lemma_joined_len(lefts: Set<Draws>, rights: Set<Draws>, low: nat, high: nat)
    requires
        lefts.finite(),
        rights.finite(),
        low <= high <= u64::MAX + 1,
    ensures
        joined(lefts, rights, low, high).finite(),
        joined(lefts, rights, low, high).len() == lefts.len() * rights.len() * (high - low),
    decreases lefts.len(),
{
    let all = joined(lefts, rights, low, high);
    if lefts.len() == 0 {
        lefts.lemma_len0_is_empty();
        assert(all =~= Set::<Draws>::empty());
        assert(lefts.len() * rights.len() * (high - low) == 0) by (nonlinear_arith)
            requires
                lefts.len() == 0,
        ;
    } else {
        let first = lefts.choose();
        let others = lefts.remove(first);
        lemma_joined_len(others, rights, low, high);
        lemma_joined_right(first, rights, low, high);
        let rest = joined(others, rights, low, high);
        let one = joined(set![first], rights, low, high);
        assert(all =~= rest + one);
        assert(rest.disjoint(one));
        lemma_set_disjoint_lens(rest, one);
        assert(lefts.len() * rights.len() * (high - low) == others.len() * rights.len() * (high
            - low) + rights.len() * (high - low)) by (nonlinear_arith)
            requires
                lefts.len() == others.len() + 1,
        ;
    }
}

/// The ways the draws can fall are as many as `outcomes` says.
pub proof fn lemma_all_draws_len(grouping: Grouping)
    requires
        grouping.leaves() <= u64::MAX,
    ensures
        grouping.all_draws().finite(),
        grouping.all_draws().len() == grouping.outcomes(),
    decreases grouping,
{
    match grouping {
        Grouping::Leaf => {
            assert(grouping.all_draws() =~= set![Draws::Leaf]);
        },
        Grouping::Join(left, right) => {
            lemma_grouping_sizes(*left);
            lemma_grouping_sizes(*right);
            lemma_all_draws_len(*left);
            lemma_all_draws_len(*right);
            lemma_joined_len(left.all_draws(), right.all_draws(), 0, grouping.leaves());
            assert(grouping.all_draws() =~= joined(
                left.all_draws(),
                right.all_draws(),
                0,
                grouping.leaves(),
            ));
        },
    }
}

/// The ways the draws can fall that select the file at place `i` are as
/// many as `favourable` says.
pub proof fn lemma_draws_for_len(grouping: Grouping, i: nat)
    requires
        grouping.leaves() <= u64::MAX,
        i < grouping.leaves(),
    ensures
        grouping.draws_for(i).finite(),
        grouping.draws_for(i).len() == grouping.favourable(i),
    decreases grouping,
{
    match grouping {
        Grouping::Leaf => {
            assert(grouping.draws_for(i) =~= set![Draws::Leaf]);
        },
        Grouping::Join(left, right) => {
            lemma_grouping_sizes(*left);
            lemma_grouping_sizes(*right);
            lemma_all_draws_len(*left);
            lemma_all_draws_len(*right);
            let n = grouping.leaves();
            let nl = left.leaves();
            if i < nl {
                lemma_draws_for_len(*left, i);
                let product = joined(left.draws_for(i), right.all_draws(), 0, nl);
                lemma_joined_len(left.draws_for(i), right.all_draws(), 0, nl);
                assert forall|draws: Draws| grouping.draws_for(i).contains(draws)
                    == product.contains(draws) by {
                    match draws {
                        Draws::Join(first, second, draw) => {
                            if right.fits(*second) {
                                lemma_chosen_in_range(*right, *second);
                            }
                        },
                        Draws::Leaf => {},
                    }
                }
                assert(grouping.draws_for(i) =~= product);
            } else {
                let j = (i - nl) as nat;
                lemma_draws_for_len(*right, j);
                let product = joined(left.all_draws(), right.draws_for(j), nl, n);
                lemma_joined_len(left.all_draws(), right.draws_for(j), nl, n);
                assert forall|draws: Draws| grouping.draws_for(i).contains(draws)
                    == product.contains(draws) by {
                    match draws {
                        Draws::Join(first, second, draw) => {
                            if left.fits(*first) {
                                lemma_chosen_in_range(*left, *first);
                            }
                        },
                        Draws::Leaf => {},
                    }
                }
                assert(grouping.draws_for(i) =~= product);
            }
        },
    }
}

proof fn lemma_counts_uniform(grouping: Grouping, i: nat)
    requires
        i < grouping.leaves(),
    ensures
        grouping.favourable(i) * grouping.leaves() == grouping.outcomes(),
        grouping.outcomes() > 0,
    decreases grouping,
{
    match grouping {
        Grouping::Leaf => {},
        Grouping::Join(left, right) => {
            lemma_grouping_sizes(*left);
            lemma_grouping_sizes(*right);
            let n = grouping.leaves();
            lemma_counts_uniform(*left, 0);
            lemma_counts_uniform(*right, 0);
            let lo = left.outcomes();
            let ro = right.outcomes();
            assert(lo * ro * n > 0) by (nonlinear_arith)
                requires
                    lo > 0,
                    ro > 0,
                    n > 0,
            ;
            if i < left.leaves() {
                lemma_counts_uniform(*left, i);
                let f = left.favourable(i);
                let l = left.leaves();
                assert(f * ro * l * n == lo * ro * n) by (nonlinear_arith)
                    requires
                        f * l == lo,
                ;
            } else {
                let j = (i - left.leaves()) as nat;
                lemma_counts_uniform(*right, j);
                let f = right.favourable(j);
                let r = right.leaves();
                assert(lo * f * r * n == lo * ro * n) by (nonlinear_arith)
                    requires
                        f * r == ro,
                ;
            }
        },
    }
}

/// Uniformity: whatever the grouping, each of its files is selected in the
/// same share of the ways the draws can fall, one in as many as there are
/// files.
pub proof fn lemma_uniform(grouping: Grouping, i: nat)
    requires
        grouping.leaves() <= u64::MAX,
        i < grouping.leaves(),
    ensures
        grouping.all_draws().finite(),
        grouping.draws_for(i).finite(),
        grouping.all_draws().len() > 0,
        grouping.draws_for(i).len() * grouping.leaves() == grouping.all_draws().len(),
{
    lemma_all_draws_len(grouping);
    lemma_draws_for_len(grouping, i);
    lemma_counts_uniform(grouping, i);
}

/// Independence of grouping and order: any two groupings of equally many
/// files select any two of their files in the same share of their draws.
pub proof fn lemma_grouping_independent(first: Grouping, second: Grouping, i: nat, j: nat)
    requires
        first.leaves() == second.leaves(),
        first.leaves() <= u64::MAX,
        i < first.leaves(),
        j < second.leaves(),
    ensures
        first.draws_for(i).len() * second.all_draws().len() == second.draws_for(j).len()
            * first.all_draws().len(),
{
    lemma_uniform(first, i);
    lemma_uniform(second, j);
    let n = first.leaves();
    let f1 = first.draws_for(i).len();
    let f2 = second.draws_for(j).len();
    assert(f1 * (f2 * n) == f2 * (f1 * n)) by (nonlinear_arith);
}

impl Default for ScanResult {
    /// The result of a scan that has found nothing.
    fn default() -> (result: ScanResult)
        ensures
            result@ == nothing(),
    {
        ScanResult { selected: None, count: 0 }
    }
}

impl ScanResult {
    /// The result of a scan that has found the one file `path`.
    pub fn leaf(path: String) -> (result: ScanResult)
        ensures
            result@ == single(path@),
    {
        ScanResult { selected: Some(path), count: 1 }
    }
}

/// Combines two results with a given draw.
pub fn reduce_with_draw(a: ScanResult, b: ScanResult, draw: u64) -> (r: ScanResult)
    ensures
        r@ == combined(a@, b@, draw),
{
    let total_count = a.count.saturating_add(b.count);
    if total_count == 0 {
        return ScanResult::default();
    }
    if a.count == 0 {
        return b;
    }
    if b.count == 0 {
        return a;
    }
    if draw < a.count {
        ScanResult { selected: a.selected, count: total_count }
    } else {
        ScanResult { selected: b.selected, count: total_count }
    }
}

/// Combines two results into one that stands for the files of both: the
/// candidate of `a` is kept with the chance that the count of `a` has in
/// the sum of the counts, else that of `b`.
pub fn reduce_scan_result(a: ScanResult, b: ScanResult) -> (r: ScanResult)
    ensures
        may_combine(a@, b@, r@),
{
    let total_count = a.count.saturating_add(b.count);
    let draw = if a.count > 0 && b.count > 0 {
        draw_below(total_count)
    } else {
        0
    };
    reduce_with_draw(a, b, draw)
}

/// The time a sampling run may take unless told otherwise, in milliseconds.
pub const DEFAULT_SCAN_TIMEOUT_MS: u64 = 2000;

/// The time a walker may wait idle unless told otherwise, in milliseconds:
/// by custom half the scan timeout.
pub const DEFAULT_BUSY_TIMEOUT_MS: u64 = 1000;

/// What a walk finds at one path.
#[derive(Debug, Copy, Clone, PartialEq, Eq, Structural)]
pub enum Kind {
    Unreadable,
    Directory,
    File,
}

/// One step of a walk: the path it met, what it found there, and the time
/// of the step in milliseconds since the sampling run began.
#[derive(Debug)]
pub struct Entry {
    pub path: String,
    pub kind: Kind,
    pub at_ms: u64,
}

/// The walk of one root: the root itself, then everything met below it in
/// the order of the walk.
#[derive(Debug)]
pub struct Listing {
    pub root: Entry,
    pub entries: Vec<Entry>,
}

/// Where a walk stands: the files taken in so far, and whether the time
/// was found to be up.
pub struct Walk {
    pub leaves: Seq<Seq<char>>,
    pub cancelled: bool,
}

/// A walk after one step more. A step after the deadline, or after the
/// time was found to be up, takes nothing in and leaves the time up; else a
/// file is taken in, and anything else is passed over.
pub open spec fn stepped(walk: Walk, entry: Entry, deadline_ms: u64) -> Walk {
    if walk.cancelled || entry.at_ms > deadline_ms {
        Walk { leaves: walk.leaves, cancelled: true }
    } else if entry.kind == Kind::File {
        Walk { leaves: walk.leaves.push(entry.path@), cancelled: false }
    } else {
        walk
    }
}

/// A walk after the steps `entries`, in order.
pub open spec fn walked(start: Walk, entries: Seq<Entry>, deadline_ms: u64) -> Walk
    decreases entries.len(),
{
    if entries.len() == 0 {
        start
    } else {
        stepped(walked(start, entries.drop_last(), deadline_ms), entries.last(), deadline_ms)
    }
}

/// The scan of one root that begins with the time up or not: nothing where
/// the time is up at the root or the root cannot be read, the root itself
/// where it is a file, and the walk below it where it is a directory.
pub open spec fn scanned(listing: Listing, cancelled: bool, deadline_ms: u64) -> Walk {
    if cancelled || listing.root.at_ms > deadline_ms {
        Walk { leaves: Seq::empty(), cancelled: true }
    } else {
        match listing.root.kind {
            Kind::Unreadable => Walk { leaves: Seq::empty(), cancelled: false },
            Kind::File => Walk { leaves: seq![listing.root.path@], cancelled: false },
            Kind::Directory => walked(
                Walk { leaves: Seq::empty(), cancelled: false },
                listing.entries@,
                deadline_ms,
            ),
        }
    }
}

/// The files that a sampling run takes in: those of every root, in the
/// order of the roots. Each root is judged by its own times; that the time
/// was up in one root takes nothing from another.
pub open spec fn sampled(roots: Seq<Listing>, deadline_ms: u64) -> Seq<Seq<char>>
    decreases roots.len(),
{
    if roots.len() == 0 {
        Seq::empty()
    } else {
        sampled(roots.drop_last(), deadline_ms) + scanned(roots.last(), false, deadline_ms).leaves
    }
}

/// Whether `path` is a file that the walk `listing` met: its root, where
/// that is a file, or a file among its entries.
pub open spec fn lists(listing: Listing, path: Seq<char>) -> bool {
    ||| listing.root.kind == Kind::File && listing.root.path@ == path
    ||| exists|k: int|
        0 <= k < listing.entries.len() && (#[trigger] listing.entries[k]).kind == Kind::File
            && listing.entries[k].path@ == path
}

/// A walk takes in nothing but files among its steps.
pub proof fn lemma_walked_lists(start: Walk, entries: Seq<Entry>, deadline_ms: u64)
    ensures
        forall|i: int|
            0 <= i < walked(start, entries, deadline_ms).leaves.len() ==> start.leaves.contains(
                #[trigger] walked(start, entries, deadline_ms).leaves[i],
            ) || exists|k: int|
                0 <= k < entries.len() && (#[trigger] entries[k]).kind == Kind::File
                    && entries[k].path@ == walked(start, entries, deadline_ms).leaves[i],
    decreases entries.len(),
{
    let after = walked(start, entries, deadline_ms);
    if entries.len() > 0 {
        let rest = entries.drop_last();
        lemma_walked_lists(start, rest, deadline_ms);
        let before = walked(start, rest, deadline_ms);
        assert forall|i: int| 0 <= i < after.leaves.len() implies start.leaves.contains(
            #[trigger] after.leaves[i],
        ) || exists|k: int|
            0 <= k < entries.len() && (#[trigger] entries[k]).kind == Kind::File && entries[k].path@
                == after.leaves[i] by {
            if i < before.leaves.len() {
                assert(after.leaves[i] == before.leaves[i]);
                if !start.leaves.contains(before.leaves[i]) {
                    let k = choose|k: int|
                        0 <= k < rest.len() && (#[trigger] rest[k]).kind == Kind::File
                            && rest[k].path@ == before.leaves[i];
                    assert(entries[k] == rest[k]);
                }
            } else {
                assert(entries[entries.len() - 1].kind == Kind::File);
            }
        }
    }
}

/// A sampling run takes in nothing but files that the walks of its roots
/// met. So where every file met lies under a root that was asked for, so
/// does the file that is drawn.
pub proof fn lemma_sampled_lists(roots: Seq<Listing>, deadline_ms: u64)
    ensures
        forall|i: int|
            0 <= i < sampled(roots, deadline_ms).len() ==> exists|r: int|
                0 <= r < roots.len() && lists(
                    #[trigger] roots[r],
                    #[trigger] sampled(roots, deadline_ms)[i],
                ),
    decreases roots.len(),
{
    if roots.len() > 0 {
        let rest = roots.drop_last();
        let last = roots.last();
        lemma_sampled_lists(rest, deadline_ms);
        let before = sampled(rest, deadline_ms);
        let more = scanned(last, false, deadline_ms).leaves;
        let start = Walk { leaves: Seq::empty(), cancelled: false };
        lemma_walked_lists(start, last.entries@, deadline_ms);
        assert forall|i: int| 0 <= i < sampled(roots, deadline_ms).len() implies exists|r: int|
            0 <= r < roots.len() && lists(
                #[trigger] roots[r],
                #[trigger] sampled(roots, deadline_ms)[i],
            ) by {
            let leaf = sampled(roots, deadline_ms)[i];
            if i < before.len() {
                assert(leaf == before[i]);
                let r = choose|r: int| 0 <= r < rest.len() && lists(#[trigger] rest[r], before[i]);
                assert(roots[r] == rest[r]);
                assert(lists(roots[r], leaf));
            } else {
                let j = i - before.len();
                assert(leaf == more[j]);
                assert(lists(last, leaf));
                assert(roots[roots.len() - 1] == last);
            }
        }
    }
}

/// A number of files as a count, held at the largest count.
pub open spec fn clipped(n: nat) -> u64 {
    if n > u64::MAX {
        u64::MAX
    } else {
        n as u64
    }
}

/// Whether a tally stands for the files `leaves`: it counts them, and its
/// candidate is one of them, or none where there is no file.
pub open spec fn tallies(tally: Tally, leaves: Seq<Seq<char>>) -> bool {
    &&& tally.count == clipped(leaves.len())
    &&& leaves.len() == 0 ==> tally.selected.is_none()
    &&& leaves.len() > 0 ==> tally.selected.is_some() && leaves.contains(tally.selected.unwrap())
}

/// Two tallies combined stand for the files of both.
pub proof fn lemma_tallies_combine(
    a: Tally,
    b: Tally,
    r: Tally,
    first: Seq<Seq<char>>,
    second: Seq<Seq<char>>,
)
    requires
        tallies(a, first),
        tallies(b, second),
        may_combine(a, b, r),
    ensures
        tallies(r, first + second),
{
    let all = first + second;
    if first.len() > 0 {
        let k = choose|k: int| 0 <= k < first.len() && first[k] == a.selected.unwrap();
        assert(all[k] == a.selected.unwrap());
    }
    if second.len() > 0 {
        let k = choose|k: int| 0 <= k < second.len() && second[k] == b.selected.unwrap();
        assert(all[first.len() + k] == b.selected.unwrap());
    }
}

/// Whether a tally is one that combining the files `leaves` can give: the
/// tally of some grouping of them, with draws that fit it; for no files,
/// the tally that has found nothing.
pub open spec fn arises(tally: Tally, leaves: Seq<Seq<char>>) -> bool {
    if leaves.len() == 0 {
        tally == nothing()
    } else {
        exists|grouping: Grouping, draws: Draws| #[trigger]
            grouping.fits(draws) && grouping.leaves() == leaves.len() && tally == grouping.tally(
                leaves,
                draws,
            )
    }
}

/// Whether `selected` is what a draw among the files `leaves` can give: the
/// file at the place that some draws select in some grouping of them; for
/// no files, nothing.
pub open spec fn may_select(leaves: Seq<Seq<char>>, selected: Option<Seq<char>>) -> bool {
    if leaves.len() == 0 {
        selected.is_none()
    } else {
        exists|grouping: Grouping, draws: Draws| #[trigger]
            grouping.fits(draws) && grouping.leaves() == leaves.len() && selected == Some(
                leaves[grouping.chosen(draws) as int],
            )
    }
}

/// The text of a path that may be missing.
pub open spec fn path_text(path: Option<String>) -> Option<Seq<char>> {
    match path {
        Some(text) => Some(text@),
        None => None,
    }
}

/// Two tallies that arise from their files, combined, arise from the files
/// of both.
pub proof fn lemma_arises_combine(
    a: Tally,
    b: Tally,
    r: Tally,
    first: Seq<Seq<char>>,
    second: Seq<Seq<char>>,
)
    requires
        arises(a, first),
        arises(b, second),
        may_combine(a, b, r),
        first.len() + second.len() <= u64::MAX,
    ensures
        arises(r, first + second),
{
    let all = first + second;
    if first.len() == 0 {
        assert(all =~= second);
        if second.len() > 0 {
            let (gb, db) = choose|gb: Grouping, db: Draws| #[trigger]
                gb.fits(db) && gb.leaves() == second.len() && b == gb.tally(second, db);
            lemma_tally_selects(gb, second, db);
        }
    } else if second.len() == 0 {
        assert(all =~= first);
        let (ga, da) = choose|ga: Grouping, da: Draws| #[trigger]
            ga.fits(da) && ga.leaves() == first.len() && a == ga.tally(first, da);
        lemma_tally_selects(ga, first, da);
    } else {
        let (ga, da) = choose|ga: Grouping, da: Draws| #[trigger]
            ga.fits(da) && ga.leaves() == first.len() && a == ga.tally(first, da);
        let (gb, db) = choose|gb: Grouping, db: Draws| #[trigger]
            gb.fits(db) && gb.leaves() == second.len() && b == gb.tally(second, db);
        lemma_tally_selects(ga, first, da);
        lemma_tally_selects(gb, second, db);
        let draw = choose|draw: u64|
            (total(a.count, b.count) > 0 ==> draw < total(a.count, b.count)) && r
                == #[trigger] combined(a, b, draw);
        let grouping = Grouping::Join(Box::new(ga), Box::new(gb));
        let draws = Draws::Join(Box::new(da), Box::new(db), draw);
        assert(all.take(ga.leaves() as int) =~= first);
        assert(all.skip(ga.leaves() as int) =~= second);
        assert(grouping.fits(draws));
        assert(r == grouping.tally(all, draws));
    }
}

/// A tally that arises from files holds a file that a draw among them can
/// give.
pub proof fn lemma_arises_selects(tally: Tally, leaves: Seq<Seq<char>>)
    requires
        arises(tally, leaves),
        leaves.len() <= u64::MAX,
    ensures
        may_select(leaves, tally.selected),
{
    if leaves.len() > 0 {
        let (grouping, draws) = choose|grouping: Grouping, draws: Draws| #[trigger]
            grouping.fits(draws) && grouping.leaves() == leaves.len() && tally == grouping.tally(
                leaves,
                draws,
            );
        lemma_tally_selects(grouping, leaves, draws);
    }
}

/// Once the time is up, further steps change nothing.
pub proof fn lemma_cancelled_stays(start: Walk, entries: Seq<Entry>, i: int, deadline_ms: u64)
    requires
        0 <= i <= entries.len(),
        walked(start, entries.take(i), deadline_ms).cancelled,
    ensures
        walked(start, entries, deadline_ms) == walked(start, entries.take(i), deadline_ms),
    decreases entries.len() - i,
{
    if i < entries.len() {
        let next = entries.take(i + 1);
        assert(next.drop_last() =~= entries.take(i));
        lemma_cancelled_stays(start, entries, i + 1, deadline_ms);
    } else {
        assert(entries.take(i) =~= entries);
    }
}

/// The time budget of one sampling run, shared by all its walkers.
#[derive(Debug)]
pub struct Budget {
    deadline_ms: u64,
    cancelled: bool,
}

impl Budget {
    /// The time after which nothing more is taken in, in milliseconds
    /// since the run began.
    pub closed spec fn deadline(&self) -> u64 {
        self.deadline_ms
    }

    /// Whether the time was found to be up.
    pub closed spec fn cancelled(&self) -> bool {
        self.cancelled
    }

    /// A budget that ends `scan_timeout_ms` after the run began.
    pub fn new(scan_timeout_ms: u64) -> (budget: Budget)
        ensures
            budget.deadline() == scan_timeout_ms,
            !budget.cancelled(),
    {
        Budget { deadline_ms: scan_timeout_ms, cancelled: false }
    }

    /// Asks at time `now_ms` whether the run may go on. Once the answer was
    /// no, it stays no.
    pub fn check(&mut self, now_ms: u64) -> (open: bool)
        ensures
            open == (!old(self).cancelled() && now_ms <= old(self).deadline()),
            final(self).cancelled() == !open,
            final(self).deadline() == old(self).deadline(),
    {
        if !self.cancelled && now_ms <= self.deadline_ms {
            true
        } else {
            self.cancelled = true;
            false
        }
    }

    /// Whether the time was found to be up.
    pub fn is_cancelled(&self) -> (r: bool)
        ensures
            r == self.cancelled(),
    {
        self.cancelled
    }
}

/// Scans one root within the budget: the result counts the files taken in
/// and holds one of them, chosen at random.
pub fn scan_root(listing: &Listing, budget: &mut Budget) -> (r: ScanResult)
    ensures
        final(budget).deadline() == old(budget).deadline(),
        final(budget).cancelled() == scanned(
            *listing,
            old(budget).cancelled(),
            old(budget).deadline(),
        ).cancelled,
        tallies(r@, scanned(*listing, old(budget).cancelled(), old(budget).deadline()).leaves),
        scanned(*listing, old(budget).cancelled(), old(budget).deadline()).leaves.len()
            <= u64::MAX ==> arises(
            r@,
            scanned(*listing, old(budget).cancelled(), old(budget).deadline()).leaves,
        ),
{
    if !budget.check(listing.root.at_ms) {
        return ScanResult::default();
    }
    match listing.root.kind {
        Kind::Unreadable => ScanResult::default(),
        Kind::File => {
            let r = ScanResult::leaf(listing.root.path.clone());
            assert(seq![listing.root.path@][0] == listing.root.path@);
            assert(Grouping::Leaf.fits(Draws::Leaf) && r@ == Grouping::Leaf.tally(
                seq![listing.root.path@],
                Draws::Leaf,
            ));
            r
        },
        Kind::Directory => {
            let ghost start = Walk { leaves: Seq::empty(), cancelled: false };
            let ghost deadline = budget.deadline();
            let mut acc = ScanResult::default();
            let mut i: usize = 0;
            while i < listing.entries.len()
                invariant
                    i <= listing.entries.len(),
                    start == (Walk { leaves: Seq::empty(), cancelled: false }),
                    deadline == budget.deadline(),
                    deadline == old(budget).deadline(),
                    !old(budget).cancelled(),
                    listing.root.at_ms <= deadline,
                    listing.root.kind == Kind::Directory,
                    budget.cancelled() == walked(
                        start,
                        listing.entries@.take(i as int),
                        deadline,
                    ).cancelled,
                    !budget.cancelled(),
                    tallies(acc@, walked(start, listing.entries@.take(i as int), deadline).leaves),
                    walked(start, listing.entries@.take(i as int), deadline).leaves.len()
                        <= u64::MAX ==> arises(
                        acc@,
                        walked(start, listing.entries@.take(i as int), deadline).leaves,
                    ),
                decreases listing.entries.len() - i,
            {
                let entry = &listing.entries[i];
                proof {
                    let next = listing.entries@.take(i + 1);
                    assert(next.drop_last() =~= listing.entries@.take(i as int));
                    assert(next.last() == *entry);
                }
                if !budget.check(entry.at_ms) {
                    proof {
                        lemma_cancelled_stays(start, listing.entries@, i + 1, deadline);
                    }
                    return acc;
                }
                if entry.kind == Kind::File {
                    let ghost before = acc@;
                    let ghost leaves = walked(
                        start,
                        listing.entries@.take(i as int),
                        deadline,
                    ).leaves;
                    let found = ScanResult::leaf(entry.path.clone());
                    assert(seq![entry.path@][0] == entry.path@);
                    acc = reduce_scan_result(acc, found);
                    proof {
                        lemma_tallies_combine(before, found@, acc@, leaves, seq![entry.path@]);
                        assert(leaves + seq![entry.path@] =~= leaves.push(entry.path@));
                        if leaves.len() + 1 <= u64::MAX {
                            assert(Grouping::Leaf.fits(Draws::Leaf) && found@
                                == Grouping::Leaf.tally(seq![entry.path@], Draws::Leaf));
                            lemma_arises_combine(before, found@, acc@, leaves, seq![entry.path@]);
                        }
                    }
                }
                i += 1;
            }
            assert(listing.entries@.take(i as int) =~= listing.entries@);
            acc
        },
    }
}

/// Draws one file at random from the walks of `roots`, taking in only what
/// was met within `scan_timeout_ms` of the start. Every file taken in has
/// the same chance, however the files are spread over the roots. Nothing
/// taken in gives `None`, which is no error.
pub fn random_file_with_timeout(roots: &Vec<Listing>, scan_timeout_ms: u64) -> (r: Option<String>)
    ensures
        r.is_none() == (sampled(roots@, scan_timeout_ms).len() == 0),
        r.is_some() ==> sampled(roots@, scan_timeout_ms).contains(r.unwrap()@),
        sampled(roots@, scan_timeout_ms).len() <= u64::MAX ==> may_select(
            sampled(roots@, scan_timeout_ms),
            path_text(r),
        ),
{
    let mut acc = ScanResult::default();
    let mut i: usize = 0;
    while i < roots.len()
        invariant
            i <= roots.len(),
            tallies(acc@, sampled(roots@.take(i as int), scan_timeout_ms)),
            sampled(roots@.take(i as int), scan_timeout_ms).len() <= u64::MAX ==> arises(
                acc@,
                sampled(roots@.take(i as int), scan_timeout_ms),
            ),
        decreases roots.len() - i,
    {
        proof {
            let next = roots@.take(i + 1);
            assert(next.drop_last() =~= roots@.take(i as int));
            assert(next.last() == roots@[i as int]);
        }
        let ghost before = acc@;
        let ghost leaves = sampled(roots@.take(i as int), scan_timeout_ms);
        let ghost more = scanned(roots@[i as int], false, scan_timeout_ms).leaves;
        let mut budget = Budget::new(scan_timeout_ms);
        let result = scan_root(&roots[i], &mut budget);
        let ghost found = result@;
        acc = reduce_scan_result(acc, result);
        proof {
            lemma_tallies_combine(before, found, acc@, leaves, more);
            if leaves.len() + more.len() <= u64::MAX {
                lemma_arises_combine(before, found, acc@, leaves, more);
            }
        }
        i += 1;
    }
    proof {
        assert(roots@.take(i as int) =~= roots@);
        if sampled(roots@, scan_timeout_ms).len() <= u64::MAX {
            lemma_arises_selects(acc@, sampled(roots@, scan_timeout_ms));
        }
    }
    acc.selected
}

/// Draws one file at random from the walks of `roots`, with the default
/// scan timeout.
pub fn random_file(roots: &Vec<Listing>) -> (r: Option<String>)
    ensures
        r.is_none() == (sampled(roots@, DEFAULT_SCAN_TIMEOUT_MS).len() == 0),
        r.is_some() ==> sampled(roots@, DEFAULT_SCAN_TIMEOUT_MS).contains(r.unwrap()@),
        sampled(roots@, DEFAULT_SCAN_TIMEOUT_MS).len() <= u64::MAX ==> may_select(
            sampled(roots@, DEFAULT_SCAN_TIMEOUT_MS),
            path_text(r),
        ),
{
    random_file_with_timeout(roots, DEFAULT_SCAN_TIMEOUT_MS)
}

} // verus!
