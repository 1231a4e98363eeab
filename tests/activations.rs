use neural_net::activations::{identity_derivative, identity_function};

#[test]
fn test_identity_function() {
    assert_eq!(identity_function(0.0), 0.0);
    assert_eq!(identity_function(1.0), 1.0);
    assert_eq!(identity_function(-1.0), -1.0);
    assert_eq!(identity_function(2.5), 2.5);
}

#[test]
fn test_identity_derivative() {
    assert_eq!(identity_derivative(0.0), 1.0);
    assert_eq!(identity_derivative(1.0), 1.0);
    assert_eq!(identity_derivative(-1.0), 1.0);
    assert_eq!(identity_derivative(2.5), 1.0);
}
