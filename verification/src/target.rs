//! Probe targets and the expansion of host specifications into them.

use crate::addr::{lemma_hosts_ascending, lemma_hosts_membership, Address, Cidr};
use crate::ranges::{format_v6, host_range, ipv6_text, next_host, parse_net, parsed_net, range_rest};
use crate::text::{dotted_quad, format_v4, hostname, is_hostname, lemma_dotted_quad_injective};
use vstd::prelude::*;
use vstd::string::*;

verus! {

/// One probe destination.
///
/// `identity` labels the target's metric series. `address` is known for a
/// target that was given as an address or came out of a range; a host name
/// has none until the prober resolves it.
#[derive(Debug)]
pub struct Target {
    pub identity: String,
    pub address: Option<Address>,
}

/// What a [`Target`] is to the contracts.
pub struct TargetModel {
    pub identity: Seq<char>,
    pub address: Option<Address>,
}

impl View for Target {
    type V = TargetModel;

    open spec fn view(&self) -> TargetModel {
        TargetModel { identity: self.identity@, address: self.address }
    }
}

impl Clone for Target {
    fn clone(&self) -> (copy: Target)
        ensures
            copy == *self,
    {
        Target { identity: self.identity.clone(), address: self.address }
    }
}

/// The models of a run of targets.
pub open spec fn models(targets: Seq<Target>) -> Seq<TargetModel> {
    targets.map_values(|t: Target| t@)
}

/// What a host specification denotes.
#[derive(Clone, Copy, Debug, PartialEq, Eq, Structural)]
pub enum HostSpec {
    /// A CIDR range: one target for each of its usable hosts.
    Range(Cidr),
    /// A single address.
    Literal(Address),
    /// A host name, taken as written.
    Name,
}

impl HostSpec {
    /// A range must be well formed; the other kinds always are.
    pub open spec fn wf(self) -> bool {
        self matches HostSpec::Range(c) ==> c.wf()
    }
}

/// Why a set of host specifications could not be expanded.
#[derive(Clone, Copy, Debug, PartialEq, Eq, Structural)]
pub enum ExpandError {
    /// The specification at `index` is neither a CIDR range, an address nor
    /// a host name.
    Malformed { index: usize },
}

/// The label of an address: dotted quad for IPv4, the standard text form
/// for IPv6.
pub open spec fn address_text(a: Address) -> Seq<char> {
    match a {
        Address::V4(bits) => dotted_quad(bits),
        Address::V6(bits) => ipv6_text(bits),
    }
}

/// The target that stands for an address.
pub open spec fn address_target(a: Address) -> TargetModel {
    TargetModel { identity: address_text(a), address: Some(a) }
}

/// The target that stands for a host name.
pub open spec fn name_target(name: Seq<char>) -> TargetModel {
    TargetModel { identity: name, address: None }
}

/// The suffix that turns an IPv4 address into the range that holds it alone.
pub open spec fn v4_suffix() -> Seq<char> {
    seq!['/', '3', '2']
}

/// The suffix that turns an IPv6 address into the range that holds it alone.
pub open spec fn v6_suffix() -> Seq<char> {
    seq!['/', '1', '2', '8']
}

/// The address of a single-address range: `as_v4` where it is an IPv4
/// range of one address, else `as_v6` where it is an IPv6 range of one
/// address.
pub open spec fn sole_address(as_v4: Option<Cidr>, as_v6: Option<Cidr>) -> Option<Address> {
    match as_v4 {
        Some(Cidr { addr: Address::V4(bits), prefix_len: 32 }) => Some(Address::V4(bits)),
        _ => match as_v6 {
            Some(Cidr { addr: Address::V6(bits), prefix_len: 128 }) => Some(Address::V6(bits)),
            _ => None,
        },
    }
}

/// The address that a text spells, if it spells one: a text is an address
/// exactly when it becomes a single-address range once the full prefix
/// length of its family is appended.
pub open spec fn literal_address(text: Seq<char>) -> Option<Address> {
    sole_address(parsed_net(text + v4_suffix()), parsed_net(text + v6_suffix()))
}

/// What a specification denotes, given what it reads as: a range where it
/// is CIDR notation, else an address where it spells one, else a host name
/// where it has the form of one. Anything else is malformed.
pub open spec fn kind_of(net: Option<Cidr>, address: Option<Address>, name: bool) -> Option<
    HostSpec,
> {
    match net {
        Some(c) => Some(HostSpec::Range(c)),
        None => match address {
            Some(a) => Some(HostSpec::Literal(a)),
            None => if name {
                Some(HostSpec::Name)
            } else {
                None
            },
        },
    }
}

/// What a text denotes as a host specification.
pub open spec fn classified(text: Seq<char>) -> Option<HostSpec> {
    kind_of(parsed_net(text), literal_address(text), is_hostname(text))
}

/// The targets of a range: one for each usable host, in ascending order.
pub open spec fn range_targets(c: Cidr) -> Seq<TargetModel> {
    c.hosts().map_values(|a: Address| address_target(a))
}

/// The targets of one specification, before duplicates are dropped.
pub open spec fn targets_of(kind: HostSpec, text: Seq<char>) -> Seq<TargetModel> {
    match kind {
        HostSpec::Range(c) => range_targets(c),
        HostSpec::Literal(a) => seq![address_target(a)],
        HostSpec::Name => seq![name_target(text)],
    }
}

/// Whether some target of `targets` carries the identity `id`.
pub open spec fn has_identity(targets: Seq<TargetModel>, id: Seq<char>) -> bool {
    exists|i: int| 0 <= i < targets.len() && (#[trigger] targets[i]).identity == id
}

/// Whether no two targets share an identity.
pub open spec fn distinct_identities(targets: Seq<TargetModel>) -> bool {
    forall|i: int, j: int|
        0 <= i < j < targets.len() ==> (#[trigger] targets[i]).identity != (
        #[trigger] targets[j]).identity
}

/// `acc` with `t` at its end, unless a target of that identity is there
/// already.
pub open spec fn absorb_one(acc: Seq<TargetModel>, t: TargetModel) -> Seq<TargetModel> {
    if has_identity(acc, t.identity) {
        acc
    } else {
        acc.push(t)
    }
}

/// `acc` followed by the targets of `items` whose identity has not occurred
/// before, each at its first occurrence.
pub open spec fn absorb(acc: Seq<TargetModel>, items: Seq<TargetModel>) -> Seq<TargetModel>
    decreases items.len(),
{
    if items.len() == 0 {
        acc
    } else {
        absorb_one(absorb(acc, items.drop_last()), items.last())
    }
}

/// A run of targets with every repeated identity dropped after its first
/// occurrence.
pub open spec fn dedup(items: Seq<TargetModel>) -> Seq<TargetModel> {
    absorb(Seq::empty(), items)
}

/// The targets of all specifications in order, before duplicates are
/// dropped; `None` where one of them is malformed.
pub open spec fn expansion(specs: Seq<Seq<char>>) -> Option<Seq<TargetModel>>
    decreases specs.len(),
{
    if specs.len() == 0 {
        Some(Seq::empty())
    } else {
        match (expansion(specs.drop_last()), classified(specs.last())) {
            (Some(init), Some(kind)) => Some(init + targets_of(kind, specs.last())),
            _ => None,
        }
    }
}

/// The place of the first malformed specification; the length of the run
/// where none is malformed.
pub open spec fn first_malformed(specs: Seq<Seq<char>>) -> nat
    decreases specs.len(),
{
    if specs.len() == 0 {
        0
    } else {
        let before = first_malformed(specs.drop_last());
        if before == specs.len() - 1 && classified(specs.last()) is Some {
            specs.len()
        } else {
            before
        }
    }
}

/// What expanding a run of specifications gives: the targets of all of
/// them without duplicates, or the place of the first malformed one.
pub open spec fn expanded(specs: Seq<Seq<char>>) -> Result<Seq<TargetModel>, ExpandError> {
    match expansion(specs) {
        Some(all) => Ok(dedup(all)),
        None => Err(ExpandError::Malformed { index: first_malformed(specs) as usize }),
    }
}

/// The texts of a run of specifications.
pub open spec fn texts(specs: Seq<String>) -> Seq<Seq<char>> {
    specs.map_values(|s: String| s@)
}

/// Absorbing a run in two parts is absorbing it whole.
pub proof fn lemma_absorb_concat(acc: Seq<TargetModel>, a: Seq<TargetModel>, b: Seq<TargetModel>)
    ensures
        absorb(acc, a + b) == absorb(absorb(acc, a), b),
    decreases b.len(),
{
    if b.len() == 0 {
        assert(a + b =~= a);
    } else {
        assert((a + b).drop_last() =~= a + b.drop_last());
        assert((a + b).last() == b.last());
        lemma_absorb_concat(acc, a, b.drop_last());
    }
}

/// The first malformed specification is malformed, everything before it
/// is not, and there is none exactly when the run has an expansion.
pub proof fn lemma_first_malformed(specs: Seq<Seq<char>>)
    ensures
        first_malformed(specs) <= specs.len(),
        first_malformed(specs) < specs.len() ==> classified(
            specs[first_malformed(specs) as int],
        ) is None,
        forall|j: int| 0 <= j < first_malformed(specs) ==> classified(#[trigger] specs[j]) is Some,
        expansion(specs) is Some <==> first_malformed(specs) == specs.len(),
    decreases specs.len(),
{
    if specs.len() > 0 {
        lemma_first_malformed(specs.drop_last());
        assert forall|j: int| 0 <= j < first_malformed(specs) implies classified(
            #[trigger] specs[j],
        ) is Some by {
            if j < specs.len() - 1 {
                assert(specs.drop_last()[j] == specs[j]);
            }
        }
        if first_malformed(specs.drop_last()) < specs.len() - 1 {
            assert(specs.drop_last()[first_malformed(specs) as int] == specs[first_malformed(
                specs,
            ) as int]);
        }
    }
}

/// Absorbing keeps what was there, in place, and keeps identities distinct.
pub proof fn lemma_absorb_extends(acc: Seq<TargetModel>, items: Seq<TargetModel>)
    ensures
        acc.len() <= absorb(acc, items).len() <= acc.len() + items.len(),
        absorb(acc, items).take(acc.len() as int) == acc,
        distinct_identities(acc) ==> distinct_identities(absorb(acc, items)),
        forall|i: int|
            0 <= i < items.len() ==> has_identity(absorb(acc, items), (#[trigger] items[i]).identity),
        forall|k: int|
            acc.len() <= k < absorb(acc, items).len() ==> items.contains(
                #[trigger] absorb(acc, items)[k],
            ),
    decreases items.len(),
{
    if items.len() == 0 {
        assert(acc.take(acc.len() as int) =~= acc);
    } else {
        let init = items.drop_last();
        let last = items.last();
        let mid = absorb(acc, init);
        let all = absorb(acc, items);
        lemma_absorb_extends(acc, init);
        assert(all.take(acc.len() as int) =~= mid.take(acc.len() as int));
        assert forall|i: int| 0 <= i < items.len() implies has_identity(
            all,
            (#[trigger] items[i]).identity,
        ) by {
            if i < init.len() {
                assert(init[i] == items[i]);
                let k = choose|k: int| 0 <= k < mid.len() && (#[trigger] mid[k]).identity
                    == items[i].identity;
                assert(all[k] == mid[k]);
            } else if !has_identity(mid, last.identity) {
                assert(all[mid.len() as int] == last);
            }
        }
        assert forall|k: int| acc.len() <= k < all.len() implies items.contains(
            #[trigger] all[k],
        ) by {
            if k < mid.len() {
                assert(all[k] == mid[k]);
                let j = choose|j: int| 0 <= j < init.len() && init[j] == mid[k];
                assert(items[j] == mid[k]);
            } else {
                assert(items[items.len() - 1] == all[k]);
            }
        }
        if distinct_identities(acc) {
            assert forall|i: int, j: int| 0 <= i < j < all.len() implies (#[trigger] all[i]).identity
                != (#[trigger] all[j]).identity by {
                if j < mid.len() {
                    assert(all[i] == mid[i] && all[j] == mid[j]);
                } else {
                    assert(all[i] == mid[i]);
                }
            }
        }
    }
}

/// What dropping duplicates leaves: no identity twice, every identity that
/// occurred, and nothing that did not occur.
pub proof fn lemma_dedup_sound(items: Seq<TargetModel>)
    ensures
        distinct_identities(dedup(items)),
        dedup(items).len() <= items.len(),
        forall|i: int|
            0 <= i < items.len() ==> has_identity(dedup(items), (#[trigger] items[i]).identity),
        forall|k: int| 0 <= k < dedup(items).len() ==> items.contains(#[trigger] dedup(items)[k]),
{
    lemma_absorb_extends(Seq::empty(), items);
}

/// Dropping duplicates keeps the order of first occurrences: the targets
/// left over sit at ascending places of the run as given, each at the
/// first place where its identity occurs.
pub proof fn lemma_dedup_order_stable(items: Seq<TargetModel>) -> (places: Seq<int>)
    ensures
        places.len() == dedup(items).len(),
        forall|k: int|
            0 <= k < places.len() ==> 0 <= #[trigger] places[k] < items.len() && items[places[k]]
                == dedup(items)[k],
        forall|k: int, l: int| 0 <= k < l < places.len() ==> places[k] < places[l],
        forall|k: int, j: int|
            0 <= k < places.len() && 0 <= j < places[k] ==> (#[trigger] items[j]).identity != (
            #[trigger] dedup(items)[k]).identity,
    decreases items.len(),
{
    if items.len() == 0 {
        Seq::empty()
    } else {
        let init = items.drop_last();
        let last = items.last();
        let before = lemma_dedup_order_stable(init);
        lemma_dedup_sound(init);
        if has_identity(dedup(init), last.identity) {
            assert forall|k: int, j: int| 0 <= k < before.len() && 0 <= j < before[k] implies (
            #[trigger] items[j]).identity != (#[trigger] dedup(items)[k]).identity by {
                assert(items[j] == init[j]);
            }
            assert forall|k: int| 0 <= k < before.len() implies 0 <= #[trigger] before[k]
                < items.len() && items[before[k]] == dedup(items)[k] by {
                assert(items[before[k]] == init[before[k]]);
            }
            before
        } else {
            let places = before.push(items.len() - 1);
            assert forall|k: int, j: int| 0 <= k < places.len() && 0 <= j < places[k] implies (
            #[trigger] items[j]).identity != (#[trigger] dedup(items)[k]).identity by {
                if k < before.len() {
                    assert(items[j] == init[j]);
                    assert(dedup(items)[k] == dedup(init)[k]);
                } else {
                    assert(items[j] == init[j]);
                    assert(has_identity(dedup(init), init[j].identity));
                }
            }
            places
        }
    }
}

/// A run without repeated identities has nothing to drop.
pub proof fn lemma_dedup_of_distinct(items: Seq<TargetModel>)
    requires
        distinct_identities(items),
    ensures
        dedup(items) == items,
    decreases items.len(),
{
    if items.len() == 0 {
        assert(items =~= Seq::empty());
    } else {
        let init = items.drop_last();
        lemma_dedup_of_distinct(init);
        if has_identity(init, items.last().identity) {
            let k = choose|k: int| 0 <= k < init.len() && (#[trigger] init[k]).identity
                == items.last().identity;
            assert(items[k] == init[k]);
            assert(items[items.len() - 1] == items.last());
        }
        assert(init.push(items.last()) =~= items);
    }
}

/// Whether some target of `targets` is probed at the address `a`.
pub open spec fn has_address(targets: Seq<TargetModel>, a: Address) -> bool {
    exists|i: int| 0 <= i < targets.len() && (#[trigger] targets[i]).address == Some(a)
}

/// The targets of a range are its usable hosts: every address of the
/// range, but for an IPv4 range with a prefix shorter than 31 neither the
/// network address nor the broadcast address.
pub proof fn lemma_range_targets_exact(c: Cidr, a: Address)
    requires
        c.wf(),
    ensures
        range_targets(c).len() == c.host_count(),
        has_address(range_targets(c), a) <==> (c.contains(a) && (c.reserves_ends() ==> a
            != c.network() && a != c.broadcast())),
{
    lemma_hosts_membership(c, a);
    lemma_hosts_ascending(c);
    if c.hosts().contains(a) {
        let i = choose|i: int| 0 <= i < c.hosts().len() && c.hosts()[i] == a;
        assert(range_targets(c)[i].address == Some(a));
    }
    if has_address(range_targets(c), a) {
        let i = choose|i: int|
            0 <= i < range_targets(c).len() && (#[trigger] range_targets(c)[i]).address == Some(a);
        assert(c.hosts()[i] == a);
    }
}

/// The hosts of an IPv4 range have pairwise different labels, so dropping
/// duplicates drops none of them: an IPv4 range alone expands to exactly
/// its usable hosts.
pub proof fn lemma_v4_range_keeps_every_host(c: Cidr)
    requires
        c.wf(),
        c.addr is V4,
    ensures
        distinct_identities(range_targets(c)),
        dedup(range_targets(c)) == range_targets(c),
{
    lemma_hosts_ascending(c);
    let items = range_targets(c);
    assert forall|i: int, j: int| 0 <= i < j < items.len() implies (#[trigger] items[i]).identity
        != (#[trigger] items[j]).identity by {
        let x = c.hosts()[i];
        let y = c.hosts()[j];
        assert(x.same_family(c.addr) && y.same_family(c.addr));
        assert(x.value() < y.value());
        if items[i].identity == items[j].identity {
            lemma_dotted_quad_injective(x->V4_0, y->V4_0);
        }
    }
    lemma_dedup_of_distinct(items);
}

/// A specification that denotes an IPv4 range expands, on its own, to
/// exactly the usable hosts of the range, in ascending order.
pub proof fn lemma_v4_range_alone(text: Seq<char>, c: Cidr)
    requires
        c.wf(),
        c.addr is V4,
    ensures
        classified(text) == Some(HostSpec::Range(c)) ==> expanded(seq![text]) == Ok::<
            Seq<TargetModel>,
            ExpandError,
        >(range_targets(c)),
{
    if classified(text) == Some(HostSpec::Range(c)) {
        let specs = seq![text];
        assert(specs.drop_last() =~= Seq::<Seq<char>>::empty());
        assert(specs.last() == text);
        assert(expansion(specs.drop_last()) == Some(Seq::<TargetModel>::empty()));
        assert(Seq::<TargetModel>::empty() + range_targets(c) =~= range_targets(c));
        lemma_v4_range_keeps_every_host(c);
    }
}

/// Absorbing one more target is absorbing the run with it at its end.
pub proof fn lemma_absorb_push(acc: Seq<TargetModel>, items: Seq<TargetModel>, t: TargetModel)
    ensures
        absorb(acc, items.push(t)) == absorb_one(absorb(acc, items), t),
{
    assert(items.push(t).drop_last() =~= items);
}

/// A text with a suffix appended.
fn with_suffix(text: &str, suffix: &str) -> (s: String)
    ensures
        s@ == text@ + suffix@,
{
    let mut s = String::from_str(text);
    s.append(suffix);
    s
}

/// Writes the label of an address.
pub fn label(a: Address) -> (s: String)
    ensures
        s@ == address_text(a),
{
    match a {
        Address::V4(bits) => format_v4(bits),
        Address::V6(bits) => format_v6(bits),
    }
}

/// Picks the address of a single-address range from what a text reads as
/// with the full IPv4 prefix length appended and with the full IPv6 prefix
/// length appended.
pub fn pick_address(as_v4: Option<Cidr>, as_v6: Option<Cidr>) -> (r: Option<Address>)
    ensures
        r == sole_address(as_v4, as_v6),
{
    match as_v4 {
        Some(Cidr { addr: Address::V4(bits), prefix_len: 32 }) => {
            return Some(Address::V4(bits));
        },
        _ => {},
    }
    match as_v6 {
        Some(Cidr { addr: Address::V6(bits), prefix_len: 128 }) => Some(Address::V6(bits)),
        _ => None,
    }
}

/// Reads a text as a single address.
pub fn literal(text: &str) -> (r: Option<Address>)
    ensures
        r == literal_address(text@),
{
    proof {
        reveal_strlit("/32");
        reveal_strlit("/128");
        assert("/32"@ =~= v4_suffix());
        assert("/128"@ =~= v6_suffix());
    }
    let as_v4 = parse_net(with_suffix(text, "/32").as_str());
    let as_v6 = parse_net(with_suffix(text, "/128").as_str());
    pick_address(as_v4, as_v6)
}

/// Decides what a specification denotes from what it reads as; `None` for
/// a malformed one.
pub fn decide(net: Option<Cidr>, address: Option<Address>, name: bool) -> (r: Option<HostSpec>)
    ensures
        r == kind_of(net, address, name),
{
    match net {
        Some(c) => Some(HostSpec::Range(c)),
        None => match address {
            Some(a) => Some(HostSpec::Literal(a)),
            None => if name {
                Some(HostSpec::Name)
            } else {
                None
            },
        },
    }
}

/// Decides what a host specification denotes; `None` for a malformed one.
pub fn classify(text: &str) -> (r: Option<HostSpec>)
    ensures
        r == classified(text@),
        r matches Some(kind) ==> kind.wf(),
{
    decide(parse_net(text), literal(text), hostname(text))
}

/// Whether a target with the identity `id` is among `targets`.
pub fn holds_identity(targets: &Vec<Target>, id: &String) -> (found: bool)
    ensures
        found == has_identity(models(targets@), id@),
{
    let mut i: usize = 0;
    while i < targets.len()
        invariant
            i <= targets.len(),
            forall|j: int| 0 <= j < i ==> (#[trigger] models(targets@)[j]).identity != id@,
        decreases targets.len() - i,
    {
        if targets[i].identity == *id {
            assert(models(targets@)[i as int].identity == id@);
            return true;
        }
        i += 1;
    }
    false
}

/// Appends a target unless one of its identity is there already.
pub fn push_unique(out: &mut Vec<Target>, t: Target)
    ensures
        models(final(out)@) == absorb_one(models(old(out)@), t@),
{
    if !holds_identity(out, &t.identity) {
        out.push(t);
        assert(models(out@) =~= models(old(out)@).push(t@));
    }
}

/// Appends the hosts of a range, each unless its identity is there already.
pub fn push_range(out: &mut Vec<Target>, c: Cidr)
    requires
        c.wf(),
    ensures
        models(final(out)@) == absorb(models(old(out)@), range_targets(c)),
{
    let ghost hosts = c.hosts();
    let ghost items = range_targets(c);
    let ghost mut done: int = 0;
    let mut range = host_range(c);
    assert(hosts.skip(0) =~= hosts);
    assert(items.take(0) =~= Seq::empty());
    loop
        invariant
            hosts == c.hosts(),
            items == hosts.map_values(|a: Address| address_target(a)),
            0 <= done <= hosts.len(),
            range_rest(range) == hosts.skip(done),
            models(out@) == absorb(models(old(out)@), items.take(done)),
        ensures
            models(out@) == absorb(models(old(out)@), items),
        decreases hosts.len() - done,
    {
        match next_host(&mut range) {
            Some(a) => {
                assert(a == hosts[done]);
                let t = Target { identity: label(a), address: Some(a) };
                assert(t@ == items[done]);
                push_unique(out, t);
                proof {
                    assert(items.take(done + 1) =~= items.take(done).push(items[done]));
                    lemma_absorb_push(models(old(out)@), items.take(done), items[done]);
                    assert(hosts.skip(done).drop_first() =~= hosts.skip(done + 1));
                    done = done + 1;
                }
            },
            None => {
                assert(done == hosts.len());
                assert(items.take(done) =~= items);
                break ;
            },
        }
    }
}

/// Appends the targets of one specification, each unless its identity is
/// there already.
pub fn push_targets(out: &mut Vec<Target>, kind: HostSpec, text: &str)
    requires
        kind.wf(),
    ensures
        models(final(out)@) == absorb(models(old(out)@), targets_of(kind, text@)),
{
    match kind {
        HostSpec::Range(c) => {
            push_range(out, c);
        },
        HostSpec::Literal(a) => {
            let t = Target { identity: label(a), address: Some(a) };
            proof {
                lemma_absorb_push(models(old(out)@), Seq::empty(), t@);
                assert(Seq::<TargetModel>::empty().push(t@) =~= targets_of(kind, text@));
            }
            push_unique(out, t);
        },
        HostSpec::Name => {
            let t = Target { identity: String::from_str(text), address: None };
            proof {
                lemma_absorb_push(models(old(out)@), Seq::empty(), t@);
                assert(Seq::<TargetModel>::empty().push(t@) =~= targets_of(kind, text@));
            }
            push_unique(out, t);
        },
    }
}

/// Expands host specifications into targets.
///
/// Every specification contributes its targets in order; a target whose
/// identity has occurred before is dropped, so no two targets of the result
/// share an identity. A malformed specification fails the whole expansion,
/// and the error names the first such.
pub fn expand(specs: &Vec<String>) -> (r: Result<Vec<Target>, ExpandError>)
    ensures
        match r {
            Ok(targets) => expanded(texts(specs@)) == Ok::<Seq<TargetModel>, ExpandError>(
                models(targets@),
            ) && distinct_identities(models(targets@)),
            Err(e) => expanded(texts(specs@)) == Err::<Seq<TargetModel>, ExpandError>(e),
        },
        r is Ok <==> forall|j: int| 0 <= j < specs.len() ==> classified(#[trigger] specs[j]@) is Some,
{
    let mut out: Vec<Target> = Vec::new();
    let mut i: usize = 0;
    assert(texts(specs@).take(0) =~= Seq::empty());
    assert(models(out@) =~= Seq::empty());
    while i < specs.len()
        invariant
            i <= specs.len(),
            expansion(texts(specs@).take(i as int)) matches Some(all) && models(out@) == dedup(all),
            forall|j: int| 0 <= j < i ==> classified(#[trigger] texts(specs@)[j]) is Some,
        decreases specs.len() - i,
    {
        let ghost before = texts(specs@).take(i as int);
        let ghost after = texts(specs@).take(i + 1);
        assert(after.drop_last() =~= before);
        assert(after.last() == specs[i as int]@);
        match classify(specs[i].as_str()) {
            Some(kind) => {
                proof {
                    lemma_absorb_concat(
                        Seq::empty(),
                        expansion(before).unwrap(),
                        targets_of(kind, specs[i as int]@),
                    );
                }
                push_targets(&mut out, kind, specs[i].as_str());
            },
            None => {
                proof {
                    lemma_first_malformed(texts(specs@));
                    let k = first_malformed(texts(specs@));
                    assert(classified(texts(specs@)[i as int]) is None);
                    if k < i {
                        assert(classified(texts(specs@)[k as int]) is Some);
                    }
                    if k > i {
                        assert(classified(texts(specs@)[i as int]) is Some);
                    }
                }
                return Err(ExpandError::Malformed { index: i });
            },
        }
        i += 1;
    }
    assert(texts(specs@).take(i as int) =~= texts(specs@));
    proof {
        lemma_first_malformed(texts(specs@));
        lemma_dedup_sound(expansion(texts(specs@)).unwrap());
        assert forall|j: int| 0 <= j < specs.len() implies classified(#[trigger] specs[j]@) is Some by {
            assert(classified(texts(specs@)[j]) is Some);
        }
    }
    Ok(out)
}

} // verus!
