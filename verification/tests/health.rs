use newsletter::routes::health;
use newsletter::routes::subscription::subscribe;
use newsletter::routes::subscription::subscription_response;
use newsletter::routes::subscription::SubscriptionAction;

#[test]
fn health_works() {
    let response = health();
    assert_eq!(response.status, 200);
    assert_eq!(response.body.len(), 0);
}

#[test]
fn subscribe_returns_a_200_for_valid_form() {
    let body = "name=sang%20khuu&email=rustdev%40gmail.com";
    let record = match subscribe(body.as_bytes()) {
        SubscriptionAction::Insert(record) => record,
        SubscriptionAction::Reject(_) => panic!("valid form was rejected"),
    };
    assert_eq!(record.email, "rustdev@gmail.com");
    assert_eq!(record.name, "sang khuu");
    let response = subscription_response(true);
    assert_eq!(200, response.status);
    assert_eq!(response.body.len(), 0);
}

#[test]
fn subscribe_returns_a_400_for_missing_form() {
    let test_cases = vec![
        ("name=sang%20khuu", "missing the email"),
        ("email=ursula_le_guin%40gmail.com", "missing the name"),
        ("", "missing both name and email"),
    ];

    for (invalid_body, error_message) in test_cases {
        match subscribe(invalid_body.as_bytes()) {
            SubscriptionAction::Insert(_) => {
                panic!(
                    "API dit not fail with 400 Bad request when the payload was {}",
                    error_message
                );
            }
            SubscriptionAction::Reject(response) => {
                assert_eq!(
                    400, response.status,
                    "API dit not fail with 400 Bad request when the payload was {}",
                    error_message
                );
                assert_eq!(response.body.len(), 0);
            }
        }
    }
}

#[test]
fn subscribe_generates_fresh_identifiers() {
    let body = "name=a&email=b".as_bytes();
    let first = match subscribe(body) {
        SubscriptionAction::Insert(record) => record,
        SubscriptionAction::Reject(_) => panic!("valid form was rejected"),
    };
    let second = match subscribe(body) {
        SubscriptionAction::Insert(record) => record,
        SubscriptionAction::Reject(_) => panic!("valid form was rejected"),
    };
    assert_ne!(first.id, second.id);
    assert!(first.subscribed_at_micros > 0);
}

#[test]
fn persistence_failure_maps_to_500() {
    let response = subscription_response(false);
    assert_eq!(response.status, 500);
    assert_eq!(response.body.len(), 0);
}
