//! Sorting resolved sites by whether they lie in one of the subnets.

use vstd::prelude::*;
use crate::resolve::{Address, Site, SiteView};
use crate::seqs::{lemma_select_none, lemma_select_step, lemma_views_push, select, views};
use crate::subnet::{in_network, Subnet};
use crate::urls::{Url, UrlView};

verus! {

/// Whether the IPv4 address `a` lies in at least one of `nets`, each given
/// as an address and a prefix length.
pub open spec fn in_any(a: u32, nets: Seq<(u32, u8)>) -> bool {
    exists|j: int| 0 <= j < nets.len() && in_network((#[trigger] nets[j]).0, nets[j].1, a)
}

/// Whether `ip` is an IPv4 address inside at least one of `nets`.
pub open spec fn address_in(ip: Address, nets: Seq<(u32, u8)>) -> bool {
    match ip {
        Address::V4(a) => in_any(a, nets),
        Address::V6(_) => false,
    }
}

/// Whether a site belongs to the matched group: at least one of its
/// addresses is an IPv4 address inside at least one of `nets`.
pub open spec fn site_matches(site: SiteView, nets: Seq<(u32, u8)>) -> bool {
    exists|i: int| 0 <= i < site.ips.len() && address_in(#[trigger] site.ips[i], nets)
}

/// The URLs of the sites that match (`wanted`) or that do not (`!wanted`),
/// in the order of the sites.
pub open spec fn group(sites: Seq<SiteView>, nets: Seq<(u32, u8)>, wanted: bool) -> Seq<UrlView> {
    select(sites, |s: SiteView| site_matches(s, nets) == wanted, |s: SiteView| s.url)
}

/// Whether `ip` lies in one of `subnets`.
pub fn address_matches(ip: &Address, subnets: &[Subnet]) -> (r: bool)
    ensures
        r == address_in(*ip, views(subnets@)),
{
    match ip {
        Address::V4(a) => {
            let ghost nets = views(subnets@);
            let mut j: usize = 0;
            while j < subnets.len()
                invariant
                    j <= subnets.len(),
                    *ip == Address::V4(*a),
                    nets == views(subnets@),
                    forall|k: int|
                        0 <= k < j ==> !in_network((#[trigger] nets[k]).0, nets[k].1, *a),
                decreases subnets.len() - j,
            {
                if subnets[j].contains(*a) {
                    assert(in_network(nets[j as int].0, nets[j as int].1, *a));
                    return true;
                }
                j += 1;
            }
            false
        },
        Address::V6(_) => false,
    }
}

/// Whether one of the site's addresses lies in one of `subnets`. The search
/// stops at the first address that does.
pub fn bigip_match(site: &Site, subnets: &[Subnet]) -> (r: bool)
    ensures
        r == site_matches(site@, views(subnets@)),
{
    let mut i: usize = 0;
    while i < site.ips.len()
        invariant
            i <= site.ips.len(),
            forall|k: int| 0 <= k < i ==> !address_in(#[trigger] site.ips@[k], views(subnets@)),
        decreases site.ips.len() - i,
    {
        if address_matches(&site.ips[i], subnets) {
            assert(address_in(site@.ips[i as int], views(subnets@)));
            return true;
        }
        i += 1;
    }
    false
}

/// Splits the sites' URLs in two: first those of the sites with an address
/// in one of the subnets, then those of the others. Both keep the order of
/// the sites.
pub fn split_targets(sites: &[Site], subnets: &[Subnet]) -> (r: (Vec<Url>, Vec<Url>))
    ensures
        views(r.0@) == group(views(sites@), views(subnets@), true),
        views(r.1@) == group(views(sites@), views(subnets@), false),
{
    let mut bigip_targets: Vec<Url> = Vec::new();
    let mut other_targets: Vec<Url> = Vec::new();
    let ghost all = views(sites@);
    let ghost nets = views(subnets@);
    proof {
        lemma_group_start(all.take(0), nets);
    }
    let mut i: usize = 0;
    while i < sites.len()
        invariant
            i <= sites.len(),
            all == views(sites@),
            nets == views(subnets@),
            views(bigip_targets@) == group(all.take(i as int), nets, true),
            views(other_targets@) == group(all.take(i as int), nets, false),
        decreases sites.len() - i,
    {
        let site = &sites[i];
        let hit = bigip_match(site, subnets);
        let url = site.url.clone();
        proof {
            lemma_group_step(all, nets, i as int);
            if hit {
                lemma_views_push(bigip_targets@, url);
            } else {
                lemma_views_push(other_targets@, url);
            }
        }
        if hit {
            bigip_targets.push(url);
        } else {
            other_targets.push(url);
        }
        i += 1;
    }
    assert(all.take(sites.len() as int) == all);
    (bigip_targets, other_targets)
}

/// With no sites both groups are empty.
pub proof fn lemma_group_start(sites: Seq<SiteView>, nets: Seq<(u32, u8)>)
    requires
        sites.len() == 0,
    ensures
        group(sites, nets, true) == Seq::<UrlView>::empty(),
        group(sites, nets, false) == Seq::<UrlView>::empty(),
{
    lemma_select_none(sites, |s: SiteView| site_matches(s, nets) == true, |s: SiteView| s.url);
    lemma_select_none(sites, |s: SiteView| site_matches(s, nets) == false, |s: SiteView| s.url);
}

/// One more site extends the group that it belongs to by its URL and
/// leaves the other group unchanged.
pub proof fn lemma_group_step(sites: Seq<SiteView>, nets: Seq<(u32, u8)>, i: int)
    requires
        0 <= i < sites.len(),
    ensures
        site_matches(sites[i], nets) ==> group(sites.take(i + 1), nets, true) == group(
            sites.take(i),
            nets,
            true,
        ).push(sites[i].url) && group(sites.take(i + 1), nets, false) == group(
            sites.take(i),
            nets,
            false,
        ),
        !site_matches(sites[i], nets) ==> group(sites.take(i + 1), nets, false) == group(
            sites.take(i),
            nets,
            false,
        ).push(sites[i].url) && group(sites.take(i + 1), nets, true) == group(
            sites.take(i),
            nets,
            true,
        ),
{
    lemma_select_step(sites, |s: SiteView| site_matches(s, nets) == true, |s: SiteView| s.url, i);
    lemma_select_step(sites, |s: SiteView| site_matches(s, nets) == false, |s: SiteView| s.url, i);
}

/// The URLs of all the sites, in their order.
pub open spec fn urls_of(sites: Seq<SiteView>) -> Seq<UrlView> {
    sites.map_values(|s: SiteView| s.url)
}

/// A URL stands in a group exactly when it is the URL of a site of that
/// group.
pub proof fn lemma_group_contains(
    sites: Seq<SiteView>,
    nets: Seq<(u32, u8)>,
    wanted: bool,
    url: UrlView,
)
    ensures
        group(sites, nets, wanted).contains(url) <==> exists|i: int|
            0 <= i < sites.len() && (#[trigger] sites[i]).url == url && site_matches(sites[i], nets)
                == wanted,
    decreases sites.len(),
{
    if sites.len() == 0 {
        lemma_group_start(sites, nets);
    } else {
        let n = sites.len() - 1;
        let before = sites.take(n);
        assert(sites.take(n + 1) == sites);
        lemma_group_step(sites, nets, n);
        lemma_group_contains(before, nets, wanted, url);
        let old_group = group(before, nets, wanted);
        if site_matches(sites[n], nets) == wanted {
            assert(group(sites, nets, wanted) == old_group.push(sites[n].url));
            vstd::seq_lib::lemma_seq_contains_after_push(old_group, sites[n].url, url);
        } else {
            assert(group(sites, nets, wanted) == old_group);
        }
        if group(sites, nets, wanted).contains(url) {
            if old_group.contains(url) {
                let i = choose|i: int|
                    0 <= i < before.len() && (#[trigger] before[i]).url == url && site_matches(
                        before[i],
                        nets,
                    ) == wanted;
                assert(sites[i] == before[i]);
            } else {
                assert(sites[n].url == url);
            }
        }
        if exists|i: int|
            0 <= i < sites.len() && (#[trigger] sites[i]).url == url && site_matches(sites[i], nets)
                == wanted {
            let i = choose|i: int|
                0 <= i < sites.len() && (#[trigger] sites[i]).url == url && site_matches(
                    sites[i],
                    nets,
                ) == wanted;
            if i < n {
                assert(before[i] == sites[i]);
            }
        }
    }
}

/// The two groups share the sites' URLs out between them: counted with
/// repetitions, every URL of a site stands in exactly one group.
pub proof fn lemma_groups_partition(sites: Seq<SiteView>, nets: Seq<(u32, u8)>)
    ensures
        group(sites, nets, true).to_multiset().add(group(sites, nets, false).to_multiset())
            == urls_of(sites).to_multiset(),
        group(sites, nets, true).len() + group(sites, nets, false).len() == sites.len(),
    decreases sites.len(),
{
    broadcast use vstd::seq_lib::to_multiset_build;

    if sites.len() == 0 {
        lemma_group_start(sites, nets);
        assert(urls_of(sites) == Seq::<UrlView>::empty());
        let none = Seq::<UrlView>::empty().to_multiset();
        assert(none.add(none) =~= none) by {
            vstd::seq_lib::to_multiset_len(Seq::<UrlView>::empty());
            vstd::multiset::lemma_multiset_empty_len(none);
        }
    } else {
        let n = sites.len() - 1;
        let before = sites.take(n);
        assert(sites.take(n + 1) == sites);
        lemma_group_step(sites, nets, n);
        lemma_groups_partition(before, nets);
        assert(sites == before.push(sites[n]));
        before.lemma_push_map_commute(|s: SiteView| s.url, sites[n]);
        assert(urls_of(sites) == urls_of(before).push(sites[n].url));
        let yes = group(before, nets, true).to_multiset();
        let no = group(before, nets, false).to_multiset();
        let u = sites[n].url;
        assert(yes.insert(u).add(no) =~= yes.add(no).insert(u));
        assert(yes.add(no.insert(u)) =~= yes.add(no).insert(u));
    }
}

/// Every URL of a site stands in one of the two groups, and the groups hold
/// nothing else.
pub proof fn lemma_groups_cover(sites: Seq<SiteView>, nets: Seq<(u32, u8)>)
    ensures
        group(sites, nets, true).to_set().union(group(sites, nets, false).to_set()) == urls_of(
            sites,
        ).to_set(),
{
    let both = group(sites, nets, true).to_set().union(group(sites, nets, false).to_set());
    let all = urls_of(sites).to_set();
    assert forall|u: UrlView| both.contains(u) == all.contains(u) by {
        lemma_group_contains(sites, nets, true, u);
        lemma_group_contains(sites, nets, false, u);
        if both.contains(u) {
            let w = group(sites, nets, true).contains(u);
            let i = choose|i: int|
                0 <= i < sites.len() && (#[trigger] sites[i]).url == u && site_matches(
                    sites[i],
                    nets,
                ) == w;
            assert(urls_of(sites)[i] == u);
        }
        if all.contains(u) {
            let i = choose|i: int| 0 <= i < urls_of(sites).len() && urls_of(sites)[i] == u;
            assert(sites[i].url == u);
        }
    }
    assert(both =~= all);
}

/// No URL stands in both groups, provided that sites with the same URL are
/// of the same group, as they are when no URL occurs twice.
pub proof fn lemma_groups_disjoint(sites: Seq<SiteView>, nets: Seq<(u32, u8)>)
    requires
        forall|i: int, j: int|
            0 <= i < sites.len() && 0 <= j < sites.len() && (#[trigger] sites[i]).url == (
            #[trigger] sites[j]).url ==> site_matches(sites[i], nets) == site_matches(
                sites[j],
                nets,
            ),
    ensures
        group(sites, nets, true).to_set().disjoint(group(sites, nets, false).to_set()),
{
    assert forall|u: UrlView|
        !(group(sites, nets, true).to_set().contains(u) && group(sites, nets, false).to_set().contains(
            u,
        )) by {
        lemma_group_contains(sites, nets, true, u);
        lemma_group_contains(sites, nets, false, u);
    }
}

/// Splitting is repeatable: two results that both meet the contract of
/// [`split_targets`] on the same sites and subnets are the same.
pub proof fn lemma_split_repeatable(
    sites: Seq<SiteView>,
    nets: Seq<(u32, u8)>,
    first: (Seq<UrlView>, Seq<UrlView>),
    second: (Seq<UrlView>, Seq<UrlView>),
)
    requires
        first.0 == group(sites, nets, true),
        first.1 == group(sites, nets, false),
        second.0 == group(sites, nets, true),
        second.1 == group(sites, nets, false),
    ensures
        first == second,
{
}

/// A site matches as soon as one of its addresses, wherever it stands, is
/// an IPv4 address inside one of the subnets, wherever that stands.
pub proof fn lemma_one_hit_matches(site: SiteView, nets: Seq<(u32, u8)>, i: int, j: int)
    requires
        0 <= i < site.ips.len(),
        0 <= j < nets.len(),
        site.ips[i] matches Address::V4(a) && in_network(nets[j].0, nets[j].1, a),
    ensures
        site_matches(site, nets),
{
    assert(address_in(site.ips[i], nets));
}

/// A site without an IPv4 address matches nothing.
pub proof fn lemma_no_ipv4_no_match(site: SiteView, nets: Seq<(u32, u8)>)
    requires
        forall|i: int| 0 <= i < site.ips.len() ==> #[trigger] site.ips[i] is V6,
    ensures
        !site_matches(site, nets),
{
}

/// A site with a single IPv4 address, against a single subnet, matches
/// exactly when the address agrees with the subnet on the prefix bits.
pub proof fn lemma_single_address(url: UrlView, ip: u32, net: (u32, u8))
    ensures
        site_matches(SiteView { url, ips: seq![Address::V4(ip)] }, seq![net]) == in_network(
            net.0,
            net.1,
            ip,
        ),
{
    let site = SiteView { url, ips: seq![Address::V4(ip)] };
    let nets = seq![net];
    if in_network(net.0, net.1, ip) {
        assert(nets[0] == net);
        assert(site.ips[0] == Address::V4(ip));
        lemma_one_hit_matches(site, nets, 0, 0);
    }
    if site_matches(site, nets) {
        let i = choose|i: int| 0 <= i < site.ips.len() && address_in(#[trigger] site.ips[i], nets);
        assert(site.ips[i] == Address::V4(ip));
        let j = choose|j: int|
            0 <= j < nets.len() && in_network((#[trigger] nets[j]).0, nets[j].1, ip);
        assert(nets[j] == net);
    }
}

} // verus!
