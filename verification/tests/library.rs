//! Library-level smoke tests.

use sigma_vault::{init, VERSION};

#[test]
fn test_library_init() {
    init();
}

#[test]
fn test_version() {
    assert!(!VERSION.is_empty());
}
