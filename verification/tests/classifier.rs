use bigip_targets::classify::{address_matches, bigip_match, split_targets};
use bigip_targets::export::{export, Prom};
use bigip_targets::resolve::{lookup_hosts, lookup_url, resolve_one, Address, Answer, Site, Skip};
use bigip_targets::subnet::Subnet;
use bigip_targets::urls::Url;

fn ip(a: u8, b: u8, c: u8, d: u8) -> u32 {
    u32::from_be_bytes([a, b, c, d])
}

fn v4(a: u8, b: u8, c: u8, d: u8) -> Address {
    Address::V4(ip(a, b, c, d))
}

fn subnet(a: u8, b: u8, c: u8, d: u8, prefix_len: u8) -> Subnet {
    Subnet::new(ip(a, b, c, d), prefix_len).unwrap()
}

fn site(url: &str, ips: Vec<Address>) -> Site {
    Site { url: Url::parse(url).unwrap(), ips }
}

fn texts(urls: &[Url]) -> Vec<String> {
    urls.iter().map(|u| u.as_str().to_owned()).collect()
}

#[test]
fn test_lookup_url() {
    let urls = vec![
        Url::parse("https://google.com").unwrap(),
        Url::parse("https://*.blah.pitt.edu").unwrap(),
        Url::parse("http://espn.com").unwrap(),
    ];
    let answers = vec![
        Some(Answer::Found(vec![v4(142, 250, 80, 46)])),
        Some(Answer::Failed("failed to lookup address information".to_owned())),
        Some(Answer::Found(vec![v4(199, 181, 132, 250)])),
    ];

    let (results, _) = lookup_url(&urls, &answers);
    assert!(results.len() > 0);
    assert!(results[0].ips.len() > 0);
}

#[test]
fn test_split_targets() {
    let sites = vec![
        site("https://google.com", vec![v4(142, 250, 80, 46)]),
        site("http://inside.example", vec![v4(10, 1, 2, 3)]),
    ];
    let subnets = vec![subnet(10, 0, 0, 0, 8)];
    let (bigip, other) = split_targets(&sites, &subnets);
    assert_eq!(texts(&bigip), vec!["http://inside.example/"]);
    assert_eq!(texts(&other), vec!["https://google.com/"]);
}

#[test]
fn resolver_keeps_the_urls_that_resolve_in_order() {
    let urls = vec![
        Url::parse("http://a.example").unwrap(),
        Url::parse("http://b.example").unwrap(),
        Url::parse("http://c.example").unwrap(),
        Url::parse("http://a.example").unwrap(),
    ];
    let answers = vec![
        Some(Answer::Found(vec![v4(10, 0, 0, 1), Address::V6(1), v4(10, 0, 0, 2)])),
        Some(Answer::Failed("no such host".to_owned())),
        Some(Answer::Found(vec![v4(192, 0, 2, 7)])),
        Some(Answer::Found(vec![v4(10, 0, 0, 1)])),
    ];
    let (sites, left) = lookup_url(&urls, &answers);
    assert_eq!(sites.len(), 3);
    assert_eq!(sites[0].url.as_str(), "http://a.example/");
    assert_eq!(sites[0].ips, vec![v4(10, 0, 0, 1), Address::V6(1), v4(10, 0, 0, 2)]);
    assert_eq!(sites[1].url.as_str(), "http://c.example/");
    assert_eq!(sites[1].ips, vec![v4(192, 0, 2, 7)]);
    assert_eq!(sites[2].url.as_str(), "http://a.example/");
    assert_eq!(left.len(), 1);
    assert_eq!(left[0].url.as_str(), "http://b.example/");
    assert!(matches!(&left[0].reason, Skip::Failed(e) if e == "no such host"));
    assert_eq!(sites.len() + left.len(), urls.len());
}

#[test]
fn resolver_gives_each_reason() {
    let urls = vec![
        Url::parse("mailto:someone@example.com").unwrap(),
        Url::parse("http://empty.example").unwrap(),
        Url::parse("http://failed.example").unwrap(),
        Url::parse("http://unasked.example").unwrap(),
        Url::parse("http://beyond.example").unwrap(),
    ];
    let answers = vec![
        Some(Answer::Found(vec![v4(192, 0, 2, 1)])),
        Some(Answer::Found(vec![])),
        Some(Answer::Failed("timed out".to_owned())),
        None,
    ];
    let (sites, left) = lookup_url(&urls, &answers);
    assert!(sites.is_empty());
    assert_eq!(left.len(), 5);
    assert!(matches!(left[0].reason, Skip::NoHost));
    assert_eq!(left[0].url.as_str(), "mailto:someone@example.com");
    assert!(matches!(left[1].reason, Skip::NoAddress));
    assert!(matches!(&left[2].reason, Skip::Failed(e) if e == "timed out"));
    assert!(matches!(left[3].reason, Skip::NoAnswer));
    assert!(matches!(left[4].reason, Skip::NoAnswer));
    assert_eq!(left[4].url.as_str(), "http://beyond.example/");
}

#[test]
fn address_for_host_is_looked_up_like_a_name() {
    let urls = vec![Url::parse("http://192.168.0.5/").unwrap()];
    assert_eq!(lookup_hosts(&urls), vec![Some("192.168.0.5".to_owned())]);
    let answers = vec![Some(Answer::Found(vec![v4(192, 168, 0, 5)]))];
    let (sites, left) = lookup_url(&urls, &answers);
    assert_eq!(sites.len(), 1);
    assert_eq!(sites[0].url.as_str(), "http://192.168.0.5/");
    assert_eq!(sites[0].ips, vec![v4(192, 168, 0, 5)]);
    assert!(left.is_empty());

    let urls = vec![Url::parse("http://[::1]:8080/").unwrap()];
    assert_eq!(lookup_hosts(&urls), vec![Some("::1".to_owned())]);
    let (sites, left) = lookup_url(&urls, &[Some(Answer::Found(vec![Address::V6(1)]))]);
    assert_eq!(sites.len(), 1);
    assert_eq!(sites[0].ips, vec![Address::V6(1)]);
    assert!(left.is_empty());
}

#[test]
fn failed_lookup_stops_nothing_and_equal_hosts_are_asked_again() {
    let urls = vec![
        Url::parse("http://a.example/one").unwrap(),
        Url::parse("http://10.0.0.7/").unwrap(),
        Url::parse("http://a.example/two").unwrap(),
    ];
    assert_eq!(
        lookup_hosts(&urls),
        vec![Some("a.example".to_owned()), Some("10.0.0.7".to_owned()), Some("a.example".to_owned())]
    );
    let answers = vec![
        Some(Answer::Failed("no such host".to_owned())),
        Some(Answer::Found(vec![v4(10, 0, 0, 7)])),
        Some(Answer::Found(vec![v4(192, 0, 2, 1), v4(192, 0, 2, 2)])),
    ];
    let (sites, left) = lookup_url(&urls, &answers);
    assert_eq!(sites.len(), 2);
    assert_eq!(sites[0].url.as_str(), "http://10.0.0.7/");
    assert_eq!(sites[0].ips, vec![v4(10, 0, 0, 7)]);
    assert_eq!(sites[1].url.as_str(), "http://a.example/two");
    assert_eq!(sites[1].ips, vec![v4(192, 0, 2, 1), v4(192, 0, 2, 2)]);
    assert_eq!(left.len(), 1);
    assert_eq!(left[0].url.as_str(), "http://a.example/one");
}

#[test]
fn resolver_of_nothing_gives_nothing() {
    let (sites, left) = lookup_url(&[], &[]);
    assert!(sites.is_empty());
    assert!(left.is_empty());
}

#[test]
fn resolve_one_decides_by_the_answer() {
    let url = Url::parse("http://espn.com").unwrap();
    let found = Answer::Found(vec![v4(199, 181, 132, 250)]);
    let site = resolve_one(&url, Some(&found)).unwrap();
    assert_eq!(site.url.as_str(), "http://espn.com/");
    assert_eq!(site.ips, vec![v4(199, 181, 132, 250)]);

    let empty = Answer::Found(vec![]);
    assert!(matches!(resolve_one(&url, Some(&empty)).unwrap_err().reason, Skip::NoAddress));
    let failed = Answer::Failed("nxdomain".to_owned());
    assert!(matches!(resolve_one(&url, Some(&failed)).unwrap_err().reason, Skip::Failed(e) if e == "nxdomain"));
    assert!(matches!(resolve_one(&url, None).unwrap_err().reason, Skip::NoAnswer));

    let hostless = Url::parse("data:text/plain,hello").unwrap();
    let skipped = resolve_one(&hostless, Some(&found)).unwrap_err();
    assert!(matches!(skipped.reason, Skip::NoHost));
    assert_eq!(skipped.url.as_str(), "data:text/plain,hello");
}

#[test]
fn hosts_to_look_up_follow_the_urls() {
    let urls = vec![
        Url::parse("https://Google.com/search").unwrap(),
        Url::parse("data:text/plain,hello").unwrap(),
        Url::parse("http://[::1]/").unwrap(),
        Url::parse("http://espn.com:8080/scores").unwrap(),
    ];
    assert_eq!(
        lookup_hosts(&urls),
        vec![Some("google.com".to_owned()), None, Some("::1".to_owned()), Some("espn.com".to_owned())]
    );
    assert_eq!(lookup_hosts(&[]), Vec::<Option<String>>::new());
}

#[test]
fn site_outside_the_subnets_is_unmatched() {
    let sites = vec![site("http://espn.com", vec![v4(199, 181, 132, 250)])];
    let subnets = vec![subnet(192, 168, 0, 0, 24)];
    let (bigip, other) = split_targets(&sites, &subnets);
    assert!(bigip.is_empty());
    assert_eq!(texts(&other), vec!["http://espn.com/"]);
}

#[test]
fn site_inside_a_subnet_is_matched_wherever_it_stands() {
    let subnets = vec![subnet(192, 168, 0, 0, 24)];
    let inside = || site("http://inside.example", vec![v4(192, 168, 0, 5)]);
    let outside = |n: u8| site(&format!("http://out{}.example", n), vec![v4(8, 8, 8, n)]);

    let (bigip, other) = split_targets(&[inside(), outside(1), outside(2)], &subnets);
    assert_eq!(texts(&bigip), vec!["http://inside.example/"]);
    assert_eq!(texts(&other), vec!["http://out1.example/", "http://out2.example/"]);

    let (bigip, other) = split_targets(&[outside(1), inside(), outside(2)], &subnets);
    assert_eq!(texts(&bigip), vec!["http://inside.example/"]);
    assert_eq!(texts(&other), vec!["http://out1.example/", "http://out2.example/"]);

    let (bigip, other) = split_targets(&[outside(1), outside(2), inside()], &subnets);
    assert_eq!(texts(&bigip), vec!["http://inside.example/"]);
    assert_eq!(texts(&other), vec!["http://out1.example/", "http://out2.example/"]);
}

#[test]
fn any_address_in_any_subnet_matches() {
    let subnets = vec![subnet(172, 16, 0, 0, 24), subnet(10, 0, 0, 0, 8), subnet(10, 1, 0, 0, 16)];
    let sites = vec![
        site("http://last-address.example", vec![v4(8, 8, 8, 8), Address::V6(7), v4(10, 1, 2, 3)]),
        site("http://none.example", vec![v4(8, 8, 8, 8), v4(172, 16, 1, 0)]),
        site("http://first-subnet.example", vec![v4(172, 16, 0, 255)]),
    ];
    let (bigip, other) = split_targets(&sites, &subnets);
    assert_eq!(texts(&bigip), vec!["http://last-address.example/", "http://first-subnet.example/"]);
    assert_eq!(texts(&other), vec!["http://none.example/"]);
}

#[test]
fn groups_share_out_the_sites() {
    let subnets = vec![subnet(10, 0, 0, 0, 8)];
    let sites = vec![
        site("http://a.example", vec![v4(10, 0, 0, 1)]),
        site("http://b.example", vec![v4(11, 0, 0, 1)]),
        site("http://c.example", vec![v4(10, 255, 255, 255)]),
        site("http://d.example", vec![]),
        site("http://a.example", vec![v4(10, 0, 0, 1)]),
    ];
    let (bigip, other) = split_targets(&sites, &subnets);
    assert_eq!(bigip.len() + other.len(), sites.len());
    assert_eq!(texts(&bigip), vec!["http://a.example/", "http://c.example/", "http://a.example/"]);
    assert_eq!(texts(&other), vec!["http://b.example/", "http://d.example/"]);
    for u in &bigip {
        assert!(!texts(&other).contains(&u.as_str().to_owned()));
    }
}

#[test]
fn splitting_twice_gives_the_same() {
    let subnets = vec![subnet(10, 0, 0, 0, 8), subnet(192, 168, 0, 0, 16)];
    let sites = vec![
        site("http://a.example", vec![v4(10, 0, 0, 1)]),
        site("http://b.example", vec![v4(11, 0, 0, 1)]),
        site("http://c.example", vec![v4(192, 168, 77, 1)]),
    ];
    let first = split_targets(&sites, &subnets);
    let second = split_targets(&sites, &subnets);
    assert_eq!(texts(&first.0), texts(&second.0));
    assert_eq!(texts(&first.1), texts(&second.1));
}

#[test]
fn without_subnets_or_addresses_nothing_matches() {
    let sites = vec![
        site("http://a.example", vec![v4(10, 0, 0, 1)]),
        site("http://v6.example", vec![Address::V6(0x0a00_0001), Address::V6(u128::MAX)]),
    ];
    let (bigip, other) = split_targets(&sites, &[]);
    assert!(bigip.is_empty());
    assert_eq!(other.len(), 2);

    let everything = vec![subnet(0, 0, 0, 0, 0)];
    let (bigip, other) = split_targets(&sites, &everything);
    assert_eq!(texts(&bigip), vec!["http://a.example/"]);
    assert_eq!(texts(&other), vec!["http://v6.example/"]);

    let (bigip, other) = split_targets(&[], &everything);
    assert!(bigip.is_empty());
    assert!(other.is_empty());
}

#[test]
fn full_prefix_matches_the_one_address() {
    let subnets = vec![subnet(192, 168, 0, 5, 32)];
    let sites = vec![
        site("http://same.example", vec![v4(192, 168, 0, 5)]),
        site("http://next.example", vec![v4(192, 168, 0, 4)]),
        site("http://far.example", vec![v4(64, 168, 0, 5)]),
    ];
    let (bigip, other) = split_targets(&sites, &subnets);
    assert_eq!(texts(&bigip), vec!["http://same.example/"]);
    assert_eq!(texts(&other), vec!["http://next.example/", "http://far.example/"]);
}

#[test]
fn one_bit_of_the_prefix_decides() {
    let s = subnet(192, 168, 0, 0, 23);
    assert!(s.contains(ip(192, 168, 0, 0)));
    assert!(s.contains(ip(192, 168, 1, 255)));
    assert!(!s.contains(ip(192, 168, 2, 0)));
    assert!(!s.contains(ip(192, 167, 255, 255)));
    assert!(!s.contains(ip(64, 168, 0, 0)));
    for bit in 0..23u32 {
        assert!(!s.contains(ip(192, 168, 0, 0) ^ (0x8000_0000u32 >> bit)));
    }
    for bit in 23..32u32 {
        assert!(s.contains(ip(192, 168, 0, 0) ^ (0x8000_0000u32 >> bit)));
    }
}

#[test]
fn subnet_written_with_host_bits_contains_its_network() {
    let s = subnet(172, 16, 123, 123, 16);
    assert_eq!(s.addr(), ip(172, 16, 123, 123));
    assert_eq!(s.prefix_len(), 16);
    assert_eq!(s.netmask(), ip(255, 255, 0, 0));
    assert_eq!(s.network(), ip(172, 16, 0, 0));
    assert_eq!(s.broadcast(), ip(172, 16, 255, 255));
    assert!(s.contains(ip(172, 16, 0, 1)));
    assert!(!s.contains(ip(172, 17, 123, 123)));
}

#[test]
fn netmask_of_each_edge() {
    assert_eq!(subnet(1, 2, 3, 4, 0).netmask(), 0);
    assert_eq!(subnet(1, 2, 3, 4, 0).network(), 0);
    assert_eq!(subnet(1, 2, 3, 4, 0).broadcast(), u32::MAX);
    assert_eq!(subnet(1, 2, 3, 4, 1).netmask(), 0x8000_0000);
    assert_eq!(subnet(1, 2, 3, 4, 20).netmask(), ip(255, 255, 240, 0));
    assert_eq!(subnet(1, 2, 3, 4, 31).netmask(), 0xFFFF_FFFE);
    assert_eq!(subnet(1, 2, 3, 4, 32).netmask(), u32::MAX);
    assert_eq!(subnet(1, 2, 3, 4, 32).network(), ip(1, 2, 3, 4));
    assert_eq!(subnet(1, 2, 3, 4, 32).broadcast(), ip(1, 2, 3, 4));
}

#[test]
fn prefix_above_32_is_refused() {
    assert_eq!(Subnet::new(0, 33), None);
    assert_eq!(Subnet::new(ip(10, 0, 0, 0), 255), None);
    assert!(Subnet::new(ip(10, 0, 0, 0), 32).is_some());
    assert!(Subnet::new(ip(10, 0, 0, 0), 0).is_some());
}

#[test]
fn address_and_site_checks_agree_with_the_split() {
    let subnets = vec![subnet(10, 0, 0, 0, 8), subnet(192, 168, 0, 0, 24)];
    assert!(address_matches(&v4(192, 168, 0, 77), &subnets));
    assert!(address_matches(&v4(10, 200, 0, 77), &subnets));
    assert!(!address_matches(&v4(192, 168, 1, 77), &subnets));
    assert!(!address_matches(&Address::V6(0xC0A8_0001), &subnets));
    assert!(!address_matches(&v4(10, 0, 0, 1), &[]));
    assert!(bigip_match(&site("http://a.example", vec![Address::V6(1), v4(10, 0, 0, 1)]), &subnets));
    assert!(!bigip_match(&site("http://a.example", vec![Address::V6(1), v4(11, 0, 0, 1)]), &subnets));
    assert!(!bigip_match(&site("http://a.example", vec![]), &subnets));
}

fn label(name: &str, value: &str) -> (String, String) {
    (name.to_owned(), value.to_owned())
}

#[test]
fn matched_group_carries_the_location_label() {
    let sites = vec![
        site("http://in.example", vec![v4(10, 0, 0, 1)]),
        site("http://out.example", vec![v4(11, 0, 0, 1)]),
    ];
    let (bigip, other): (Prom, Prom) = export(split_targets(&sites, &[subnet(10, 0, 0, 0, 8)]));
    assert_eq!(texts(bigip.targets()), vec!["http://in.example/"]);
    assert_eq!(bigip.labels(), &vec![label("location", "BigIP")]);
    assert_eq!(texts(other.targets()), vec!["http://out.example/"]);
    assert!(other.labels().is_empty());
}

#[test]
fn records_are_built_from_any_targets() {
    let bigip = Prom::bigip(Vec::new());
    assert!(bigip.targets().is_empty());
    assert_eq!(bigip.labels(), &vec![label("location", "BigIP")]);
    let other = Prom::other(vec![Url::parse("http://espn.com").unwrap()]);
    assert_eq!(texts(other.targets()), vec!["http://espn.com/"]);
    assert!(other.labels().is_empty());
}

#[test]
fn a_label_name_has_one_value() {
    let p = Prom::new(vec![Url::parse("http://espn.com").unwrap()]);
    assert!(p.labels().is_empty());
    let p = p.with_label("location", "BigIP").with_label("team", "web");
    assert_eq!(p.labels(), &vec![label("location", "BigIP"), label("team", "web")]);
    let p = p.with_label("location", "elsewhere");
    assert_eq!(p.labels(), &vec![label("location", "elsewhere"), label("team", "web")]);
    let p = p.with_label("team", "web").with_label("", "");
    assert_eq!(
        p.labels(),
        &vec![label("location", "elsewhere"), label("team", "web"), label("", "")]
    );
    assert_eq!(texts(p.targets()), vec!["http://espn.com/"]);
}
