use areum::server::error_reply;
use areum::server::not_found_reply;
use areum::server::page_reply;
use areum::server::route;
use areum::server::route_to;
use areum::server::Actor;
use areum::server::ActorAction;
use areum::server::ActorState;
use areum::server::ChannelError;
use areum::server::Command;
use areum::server::Manager;
use areum::server::ManagerStep;
use areum::server::Route;
use areum::server::SendError;
use areum::src_fs::SrcFile;
use areum::src_fs::SrcFs;

fn ready(capacity: usize) -> Actor {
    let mut actor = Actor::new(capacity);
    assert_eq!(actor.started(true), Vec::<u64>::new());
    actor
}

#[test]
fn actor_starts_then_is_ready() {
    let mut actor = Actor::new(16);
    assert_eq!(actor.state(), ActorState::Starting);
    assert_eq!(actor.select(), ActorAction::Wait);
    actor.started(true);
    assert_eq!(actor.state(), ActorState::Ready);
    assert_eq!(actor.select(), ActorAction::Wait);
}

#[test]
fn failed_bootstrap_stops_the_actor_and_fails_what_was_queued() {
    let mut actor = Actor::new(16);
    assert_eq!(actor.send(1), Ok(()));
    assert_eq!(actor.started(false), vec![1]);
    assert_eq!(actor.state(), ActorState::Stopped);
    assert_eq!(actor.send(2), Err(SendError::Closed));
}

#[test]
fn requests_are_built_in_the_order_of_arrival() {
    let mut actor = ready(16);
    for request in [7, 3, 9] {
        assert_eq!(actor.send(request), Ok(()));
    }
    let mut built = Vec::new();
    loop {
        match actor.select() {
            ActorAction::Build(request) => {
                assert_eq!(actor.state(), ActorState::Processing);
                assert_eq!(actor.job(), Some(request));
                assert_eq!(actor.select(), ActorAction::Wait);
                assert_eq!(actor.finish(), Some(request));
                built.push(request);
            }
            ActorAction::Wait => break,
            ActorAction::Exit(_) => panic!("nobody told the actor to stop"),
        }
    }
    assert_eq!(built, vec![7, 3, 9]);
    assert_eq!(actor.state(), ActorState::Ready);
}

#[test]
fn one_answer_for_each_request() {
    let mut actor = ready(16);
    actor.send(1).unwrap();
    assert_eq!(actor.select(), ActorAction::Build(1));
    assert_eq!(actor.finish(), Some(1));
    assert_eq!(actor.finish(), None);
}

#[test]
fn full_queue_makes_the_sender_wait() {
    let mut actor = ready(2);
    assert_eq!(actor.send(1), Ok(()));
    assert_eq!(actor.send(2), Ok(()));
    assert_eq!(actor.send(3), Err(SendError::Full));
    assert_eq!(actor.queued(), 2);
    assert_eq!(actor.select(), ActorAction::Build(1));
    assert_eq!(actor.send(3), Ok(()));
}

#[test]
fn restart_before_the_request_is_taken_fails_it() {
    let mut actor = ready(16);
    assert_eq!(actor.send(1), Ok(()));
    actor.signal_stop();
    actor.close();
    assert_eq!(actor.state(), ActorState::Draining);
    assert_eq!(actor.select(), ActorAction::Exit(vec![1]));
    assert_eq!(actor.state(), ActorState::Stopped);
    assert_eq!(actor.queued(), 0);
    assert_eq!(actor.send(1), Err(SendError::Closed));
}

#[test]
fn restart_after_the_request_is_taken_lets_it_complete() {
    let mut actor = ready(16);
    assert_eq!(actor.send(1), Ok(()));
    assert_eq!(actor.send(2), Ok(()));
    assert_eq!(actor.select(), ActorAction::Build(1));
    actor.signal_stop();
    assert_eq!(actor.select(), ActorAction::Wait);
    assert_eq!(actor.finish(), Some(1));
    assert_eq!(actor.state(), ActorState::Draining);
    assert_eq!(actor.select(), ActorAction::Exit(vec![2]));
    assert_eq!(actor.state(), ActorState::Stopped);
}

#[test]
fn closed_channel_takes_no_request() {
    let mut actor = ready(16);
    actor.send(1).unwrap();
    actor.close();
    assert_eq!(actor.send(2), Err(SendError::Closed));
    assert_eq!(actor.select(), ActorAction::Build(1));
}

#[test]
fn dead_actor_fails_all_it_owes() {
    let mut actor = ready(16);
    actor.send(1).unwrap();
    actor.send(2).unwrap();
    assert_eq!(actor.select(), ActorAction::Build(1));
    assert_eq!(actor.died(), vec![1, 2]);
    assert_eq!(actor.state(), ActorState::Stopped);
    assert_eq!(actor.job(), None);
    assert_eq!(actor.select(), ActorAction::Wait);
}

#[test]
fn stopped_actor_stays_stopped() {
    let mut actor = ready(1);
    actor.signal_stop();
    assert_eq!(actor.select(), ActorAction::Exit(vec![]));
    actor.signal_stop();
    actor.started(true);
    assert_eq!(actor.state(), ActorState::Stopped);
}

#[test]
fn manager_routes_to_the_first_actor() {
    let manager = Manager::new();
    assert_eq!(manager.route(), Ok(0));
    assert_eq!(manager.retiring(), 0);
}

#[test]
fn restart_replaces_the_live_actor() {
    let mut manager = Manager::new();
    assert_eq!(
        manager.restart(),
        vec![
            ManagerStep::Drain(0),
            ManagerStep::Spawn(1),
            ManagerStep::Swap(1),
            ManagerStep::Close(0),
            ManagerStep::Join(0),
        ]
    );
    assert_eq!(manager.route(), Ok(1));
    assert_eq!(manager.retiring(), 1);
    manager.joined(0);
    assert_eq!(manager.retiring(), 0);
    assert_eq!(
        manager.command(Command::Restart),
        vec![
            ManagerStep::Drain(1),
            ManagerStep::Spawn(2),
            ManagerStep::Swap(2),
            ManagerStep::Close(1),
            ManagerStep::Join(1),
        ]
    );
    assert_eq!(manager.route(), Ok(2));
}

#[test]
fn stop_ends_routing() {
    let mut manager = Manager::new();
    assert_eq!(
        manager.command(Command::Stop),
        vec![ManagerStep::Drain(0), ManagerStep::Close(0), ManagerStep::Join(0), ManagerStep::CloseListener]
    );
    assert_eq!(manager.route(), Err(ChannelError));
    assert_eq!(manager.restart(), vec![]);
    assert_eq!(manager.stop(), vec![]);
    assert_eq!(manager.route(), Err(ChannelError));
}

#[test]
fn dead_live_actor_is_replaced() {
    let mut manager = Manager::new();
    manager.restart();
    assert_eq!(manager.actor_died(0), vec![]);
    assert_eq!(
        manager.actor_died(1),
        vec![ManagerStep::Spawn(2), ManagerStep::Swap(2), ManagerStep::Close(1), ManagerStep::Join(1)]
    );
    assert_eq!(manager.route(), Ok(2));
    assert_eq!(manager.retiring(), 2);
    manager.joined(1);
    manager.joined(0);
    assert_eq!(manager.retiring(), 0);
}

#[test]
fn request_sent_during_a_restart_goes_to_one_actor_only() {
    let mut manager = Manager::new();
    let mut old = ready(16);
    let target = manager.route().unwrap();
    assert_eq!(target, 0);
    old.send(1).unwrap();
    let steps = manager.restart();
    let mut new = Actor::new(16);
    for step in steps {
        match step {
            ManagerStep::Drain(0) => old.signal_stop(),
            ManagerStep::Close(0) => old.close(),
            ManagerStep::Spawn(1) => {
                new.started(true);
            }
            _ => {}
        }
    }
    assert_eq!(manager.route(), Ok(1));
    assert_eq!(new.queued(), 0);
    assert_eq!(old.select(), ActorAction::Exit(vec![1]));
    assert_eq!(new.send(1), Ok(()));
    assert_eq!(new.select(), ActorAction::Build(1));
}

fn site() -> SrcFs {
    let mut files = SrcFs::new("/site");
    files.scan(vec![
        "/site/index.jsx".to_string(),
        "/site/about.mdx".to_string(),
        "/site/blog/index.tsx".to_string(),
        "/site/blog/_.tsx".to_string(),
        "/site/style.css".to_string(),
        "/site/docs/_.md".to_string(),
    ]);
    files
}

#[test]
fn route_builds_pages() {
    let files = site();
    match route(&files, "/about") {
        Route::Build { url, file, path, generator } => {
            assert_eq!(url, "file:///site/about.mdx");
            assert_eq!(file.path, "/site/about.mdx");
            assert_eq!(path, "about");
            assert!(!generator);
        }
        other => panic!("{:?}", other),
    }
    match route(&files, "/") {
        Route::Build { url, file, path, .. } => {
            assert_eq!(url, "file:///site/index.jsx");
            assert_eq!(file.path, "/site/index.jsx");
            assert_eq!(path, "");
        }
        other => panic!("{:?}", other),
    }
    match route(&files, "/blog/") {
        Route::Build { file, path, generator, .. } => {
            assert_eq!(file.path, "/site/blog/index.tsx");
            assert_eq!(path, "blog");
            assert!(!generator);
        }
        other => panic!("{:?}", other),
    }
}

#[test]
fn route_falls_back_to_the_generator() {
    let files = site();
    match route(&files, "/docs/intro") {
        Route::Build { file, path, generator, .. } => {
            assert_eq!(file.path, "/site/docs/_.md");
            assert_eq!(path, "docs/intro");
            assert!(generator);
        }
        other => panic!("{:?}", other),
    }
}

#[test]
fn route_sends_assets_back() {
    let files = site();
    match route(&files, "/style.css") {
        Route::Asset(file) => assert_eq!(file.path, "/site/style.css"),
        other => panic!("{:?}", other),
    }
}

#[test]
fn route_finds_nothing() {
    let files = site();
    assert_eq!(route(&files, "/missing/deep/page"), Route::NotFound);
}

#[test]
fn replies() {
    let page = page_reply("<p></p>".to_string());
    assert_eq!(page.status, 200);
    assert_eq!(page.body, "<p></p>");
    let failed = error_reply("boom");
    assert_eq!(failed.status, 500);
    assert_eq!(failed.body, "Something went wrong: boom");
    let missing = not_found_reply();
    assert_eq!(missing.status, 404);
    assert_eq!(missing.body, "Something went wrong: could not find page");
}

#[test]
fn page_without_a_url_is_not_built() {
    let mut files = SrcFs::new("site");
    files.scan(vec!["site/a.jsx".to_string(), "site/b.css".to_string()]);
    assert_eq!(route(&files, "/a"), Route::Unaddressable(SrcFile::from("site/a.jsx".to_string())));
    assert_eq!(route(&files, "/b.css"), Route::Asset(SrcFile::from("site/b.css".to_string())));
}

#[test]
fn route_of_a_found_file() {
    let page = SrcFile::from("/site/blog/_.tsx".to_string());
    assert_eq!(
        route_to(page.clone(), "blog/a".to_string(), Some("file:///site/blog/_.tsx".to_string())),
        Route::Build {
            url: "file:///site/blog/_.tsx".to_string(),
            file: page.clone(),
            path: "blog/a".to_string(),
            generator: true,
        }
    );
    assert_eq!(route_to(page.clone(), "blog/a".to_string(), None), Route::Unaddressable(page));
    let asset = SrcFile::from("/site/a.png".to_string());
    assert_eq!(route_to(asset.clone(), "a.png".to_string(), None), Route::Asset(asset));
}
