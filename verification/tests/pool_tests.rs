use hyper::pool::{key, Config, Pool};

#[test]
fn test_connect_and_drop() {
    let mut pool = Pool::new(Config::default());
    let key = key("127.0.0.1", 3000, "http");
    pool.connect("127.0.0.1", 3000, "http").unwrap();
    {
        assert_eq!(pool.conns_len(), 1);
        assert_eq!(pool.conns_count(&key), 1);
    }
    pool.connect("127.0.0.1", 3000, "http").unwrap(); //reused
    {
        assert_eq!(pool.conns_len(), 1);
        assert_eq!(pool.conns_count(&key), 1);
    }
}

#[test]
fn test_distinct_destinations() {
    let mut pool = Pool::new(Config::default());
    pool.connect("a.example", 80, "http").unwrap();
    pool.connect("a.example", 443, "https").unwrap();
    pool.connect("b.example", 80, "http").unwrap();
    assert_eq!(pool.conns_len(), 3);
    assert_eq!(pool.conns_count(&key("a.example", 80, "http")), 1);
    assert_eq!(pool.conns_count(&key("missing.example", 80, "http")), 0);
}

#[test]
fn test_pool_cap() {
    let mut pool = Pool::new(Config { max_idle: 1, max_connections: 1 });
    assert!(pool.connect("a.example", 80, "http").is_some());
    assert!(pool.connect("b.example", 80, "http").is_none());
    assert!(pool.connect("a.example", 80, "http").is_some());
    assert_eq!(pool.conns_len(), 1);
}
