use shinra::runner::TermKey;
use shinra::viewer::{viewer_action, ViewerAction};

#[test]
fn viewer_keys() {
    assert_eq!(viewer_action(TermKey::Esc, false), Some(ViewerAction::Quit));
    assert_eq!(viewer_action(TermKey::Char('q'), true), Some(ViewerAction::Quit));
    assert_eq!(viewer_action(TermKey::Char('q'), false), None);
    assert_eq!(viewer_action(TermKey::Left, true), Some(ViewerAction::YawLeft));
    assert_eq!(viewer_action(TermKey::Up, true), Some(ViewerAction::PitchUp));
    assert_eq!(viewer_action(TermKey::Char('w'), false), Some(ViewerAction::TeapotAway));
    assert_eq!(viewer_action(TermKey::Char('d'), true), Some(ViewerAction::TeapotRight));
    assert_eq!(viewer_action(TermKey::Char('j'), true), Some(ViewerAction::BunnyGrow));
    assert_eq!(viewer_action(TermKey::Char('k'), false), Some(ViewerAction::BunnyShrink));
    assert_eq!(viewer_action(TermKey::Char('x'), true), None);
    assert_eq!(viewer_action(TermKey::Other, true), None);
}
