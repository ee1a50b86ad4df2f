use danse::resolvers::Resolvers;
use danse::resolvers::DEFAULT_RESOLVER;

#[test]
fn round_robin_cycles() {
    let mut pool = Resolvers::new(vec![
        "https://a.example/dns-query".to_string(),
        "https://b.example/dns-query".to_string(),
        "https://c.example/dns-query".to_string(),
    ]);
    let mut seen: Vec<String> = Vec::new();
    for _ in 0..6 {
        seen.push(pool.get_url());
    }
    assert_eq!(
        seen,
        vec![
            "https://a.example/dns-query",
            "https://b.example/dns-query",
            "https://c.example/dns-query",
            "https://a.example/dns-query",
            "https://b.example/dns-query",
            "https://c.example/dns-query",
        ]
    );
}

#[test]
fn single_url_pool_is_constant() {
    let mut pool = Resolvers::new(vec!["https://only.example/dns-query".to_string()]);
    for _ in 0..5 {
        assert_eq!(pool.get_url(), "https://only.example/dns-query");
    }
}

#[test]
fn empty_pool_falls_back_to_default() {
    let mut pool = Resolvers::new(Vec::new());
    assert_eq!(pool.get_url(), DEFAULT_RESOLVER);
    assert_eq!(pool.get_url(), DEFAULT_RESOLVER);
}
