use cmux_sidebar_ports::panes::{focused_pane, Screen, Tree, Workspace};

#[test]
fn resolves_focused_pane_from_active_workspace_and_screen() {
    let tree = Tree {
        workspaces: vec![Workspace {
            active: true,
            screens: vec![Screen {
                active: true,
                active_pane: 42,
            }],
        }],
    };

    assert_eq!(focused_pane(&tree), Some(42));
}

use cmux_sidebar_ports::panes::{browser_target, browser_url, choose_socket, SocketChoice};

fn screen(active: bool, active_pane: u64) -> Screen {
    Screen {
        active,
        active_pane,
    }
}

#[test]
fn focused_pane_falls_back_to_the_first_entries() {
    let tree = Tree {
        workspaces: vec![
            Workspace {
                active: false,
                screens: vec![screen(false, 1), screen(false, 2)],
            },
            Workspace {
                active: false,
                screens: vec![screen(true, 3)],
            },
        ],
    };
    assert_eq!(focused_pane(&tree), Some(1));
    let tree = Tree {
        workspaces: vec![
            Workspace {
                active: false,
                screens: vec![screen(true, 1)],
            },
            Workspace {
                active: true,
                screens: vec![screen(false, 7), screen(true, 8)],
            },
        ],
    };
    assert_eq!(focused_pane(&tree), Some(8));
    assert_eq!(focused_pane(&Tree { workspaces: vec![] }), None);
    let no_screens = Tree {
        workspaces: vec![Workspace {
            active: true,
            screens: vec![],
        }],
    };
    assert_eq!(focused_pane(&no_screens), None);
}

#[test]
fn browser_tab_goes_to_the_focused_pane() {
    assert_eq!(browser_url(8123), "http://localhost:8123");
    let tree = Tree {
        workspaces: vec![Workspace {
            active: true,
            screens: vec![screen(true, 5)],
        }],
    };
    let tab = browser_target(&tree, 3000).ok().unwrap();
    assert_eq!(tab.pane, 5);
    assert_eq!(tab.url, "http://localhost:3000");
    let err = browser_target(&Tree { workspaces: vec![] }, 3000).err().unwrap();
    assert_eq!(err, "cmux has no focused pane");
}

#[test]
fn tui_socket_variable_wins() {
    assert!(matches!(choose_socket(true, true), SocketChoice::Tui));
    assert!(matches!(choose_socket(true, false), SocketChoice::Tui));
    assert!(matches!(choose_socket(false, true), SocketChoice::Mux));
    assert!(matches!(choose_socket(false, false), SocketChoice::Missing));
}
