//! What is established about one installed game beyond its launcher's word.

use dxray::inspect::lacks_evidence;

#[test]
fn an_install_that_was_never_read_is_not_an_install_that_argued_nothing() {
    assert!(lacks_evidence(Some(false)), "read, and nothing in it argues it is a game");
    assert!(!lacks_evidence(None), "unread is not empty; it stays with the games and says why");
    assert!(!lacks_evidence(Some(true)));
}
