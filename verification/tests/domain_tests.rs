use dex_mcp_server::domain::{ContactId, EmailAddress, PhoneNumber, ValidationError};

#[test]
fn test_contact_id_valid() {
    let id = ContactId::new("contact_123").unwrap();
    assert_eq!(id.as_str(), "contact_123");
}

#[test]
fn test_contact_id_rejects_empty() {
    assert!(ContactId::new("").is_err());
}

#[test]
fn test_contact_id_display() {
    let id = ContactId::new("contact_123").unwrap();
    assert_eq!(id.as_str(), "contact_123");
}

#[test]
fn test_email_valid() {
    let email = EmailAddress::new("user@example.com").unwrap();
    assert_eq!(email.as_str(), "user@example.com");
}

#[test]
fn test_email_validates_format() {
    assert!(EmailAddress::new("invalid").is_err());
    assert!(EmailAddress::new("@example.com").is_err());
    assert!(EmailAddress::new("user@").is_err());
    assert!(EmailAddress::new("user@domain").is_err());
    assert!(EmailAddress::new("user@@example.com").is_err());
    assert!(EmailAddress::new("valid@example.com").is_ok());
    assert!(EmailAddress::new("user.name+tag@example.co.uk").is_ok());
}

#[test]
fn test_email_parts() {
    let email = EmailAddress::new("user@example.com").unwrap();
    assert_eq!(email.local_part(), "user");
    assert_eq!(email.domain(), "example.com");
}

#[test]
fn test_email_display() {
    let email = EmailAddress::new("user@example.com").unwrap();
    assert_eq!(email.as_str(), "user@example.com");
}

#[test]
fn test_phone_valid() {
    let phone = PhoneNumber::new("+1-555-1234").unwrap();
    assert_eq!(phone.as_str(), "+1-555-1234");
}

#[test]
fn test_phone_validates_format() {
    assert!(PhoneNumber::new("").is_err());
    assert!(PhoneNumber::new("no digits").is_err());
    assert!(PhoneNumber::new("123-456-7890").is_ok());
    assert!(PhoneNumber::new("+1 (555) 123-4567").is_ok());
    assert!(PhoneNumber::new("555.123.4567").is_ok());
    assert!(PhoneNumber::new("+14155551234").is_ok());
    assert!(PhoneNumber::new("invalid@phone").is_err());
}

#[test]
fn test_phone_digits_only() {
    let phone = PhoneNumber::new("+1 (555) 123-4567").unwrap();
    assert_eq!(phone.digits_only(), "15551234567");
}

#[test]
fn test_phone_display() {
    let phone = PhoneNumber::new("+1-555-1234").unwrap();
    assert_eq!(phone.as_str(), "+1-555-1234");
}

#[test]
fn validation_error_messages() {
    assert_eq!(ValidationError::EmptyId.message(), "ID cannot be empty");
    assert_eq!(
        ValidationError::InvalidEmail("x".to_string()).message(),
        "Invalid email address: x"
    );
    assert_eq!(
        ValidationError::InvalidPhone("y".to_string()).message(),
        "Invalid phone number: y"
    );
}
