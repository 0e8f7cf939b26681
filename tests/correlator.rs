use editor_backend::correlator::{Correlator, CorrelatorError, RequestId, Resolution};

fn s(x: &str) -> String {
    x.to_string()
}

#[test]
fn duplicate_id_on_same_server_is_refused() {
    let mut c = Correlator::new();
    assert_eq!(c.register(s("rs_1"), RequestId::Number(1), s("ping"), 10), Ok(()));
    assert_eq!(
        c.register(s("rs_1"), RequestId::Number(1), s("other"), 11),
        Err(CorrelatorError::DuplicateId)
    );
    assert_eq!(c.register(s("go_2"), RequestId::Number(1), s("ping"), 12), Ok(()));
    assert_eq!(c.register(s("rs_1"), RequestId::Text(s("1")), s("ping"), 13), Ok(()));
    assert_eq!(c.len(), 3);
}

#[test]
fn responses_resolve_by_id_in_any_order() {
    let orders: [[i64; 3]; 3] = [[1, 2, 3], [3, 1, 2], [2, 3, 1]];
    for order in orders {
        let mut c = Correlator::new();
        for (id, m) in [(1, "a"), (2, "b"), (3, "c")] {
            c.register(s("srv"), RequestId::Number(id), s(m), id).unwrap();
        }
        for id in order {
            match c.resolve(&s("srv"), &RequestId::Number(id)) {
                Resolution::Resolved(p) => {
                    assert!(matches!(p.id, RequestId::Number(n) if n == id));
                    let want = ["a", "b", "c"][(id - 1) as usize];
                    assert_eq!(p.method, want);
                    assert_eq!(p.issued_at, id);
                }
                Resolution::Unsolicited => panic!("request {} not resolved", id),
            }
        }
        assert_eq!(c.len(), 0);
    }
}

#[test]
fn unmatched_response_is_unsolicited() {
    let mut c = Correlator::new();
    c.register(s("srv"), RequestId::Number(1), s("a"), 0).unwrap();
    assert!(matches!(c.resolve(&s("srv"), &RequestId::Number(2)), Resolution::Unsolicited));
    assert!(matches!(c.resolve(&s("other"), &RequestId::Number(1)), Resolution::Unsolicited));
    assert!(matches!(
        c.resolve(&s("srv"), &RequestId::Text(s("1"))),
        Resolution::Unsolicited
    ));
    assert_eq!(c.len(), 1);
    assert!(matches!(c.resolve(&s("srv"), &RequestId::Number(1)), Resolution::Resolved(_)));
    assert!(matches!(c.resolve(&s("srv"), &RequestId::Number(1)), Resolution::Unsolicited));
}

#[test]
fn expired_requests_leave_and_late_responses_are_unsolicited() {
    let mut c = Correlator::new();
    c.register(s("srv"), RequestId::Number(1), s("a"), 100).unwrap();
    c.register(s("srv"), RequestId::Number(2), s("b"), 200).unwrap();
    c.register(s("srv"), RequestId::Number(3), s("c"), 150).unwrap();
    let gone = c.expire(150);
    let methods: Vec<&str> = gone.iter().map(|p| p.method.as_str()).collect();
    assert_eq!(methods, vec!["a", "c"]);
    assert_eq!(c.len(), 1);
    assert!(matches!(c.resolve(&s("srv"), &RequestId::Number(1)), Resolution::Unsolicited));
    assert!(matches!(c.resolve(&s("srv"), &RequestId::Number(2)), Resolution::Resolved(_)));
}

#[test]
fn request_ids_compare_by_kind_and_value() {
    assert!(RequestId::Number(4).same(&RequestId::Number(4)));
    assert!(!RequestId::Number(4).same(&RequestId::Text(s("4"))));
    assert!(RequestId::Text(s("x")).same(&RequestId::Text(s("x"))));
}
