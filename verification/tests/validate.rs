use rust_iso20022::validate::Validate;

struct Unrestricted;

impl Validate for Unrestricted {}

struct MaxLen35(String);

impl Validate for MaxLen35 {
    fn validate(&self) -> Result<(), String> {
        if self.0.chars().count() > 35 {
            Err(format!("longer than 35: {}", self.0))
        } else {
            Ok(())
        }
    }
}

#[test]
fn default_validation_accepts() {
    assert_eq!(Unrestricted.validate(), Ok(()));
}

#[test]
fn overridden_validation_decides() {
    assert_eq!(MaxLen35("short".to_string()).validate(), Ok(()));
    assert!(MaxLen35("x".repeat(36)).validate().is_err());
}
