use my_tcp::transport::manager::TaskMsg;
use my_tcp::transport::socket::{Ipv4Addr, SocketID};
use my_tcp::transport::timer::{Timer, TimerCmd};

fn id(port: u8) -> SocketID {
    SocketID::new(Ipv4Addr::new(10, 0, 0, 1), port)
}

/// The ports of the sockets whose close tasks fired, in increasing order:
/// timers that time out together fire in the order the table is walked.
fn ports(tasks: &[TaskMsg]) -> Vec<u8> {
    let mut v: Vec<u8> = tasks
        .iter()
        .map(|t| match t {
            TaskMsg::Close(id) => id.local_port,
            _ => panic!("unexpected callback"),
        })
        .collect();
    v.sort();
    v
}

#[test]
fn tokens_are_handed_out_in_turn() {
    let mut t = Timer::new();
    assert_eq!(t.add_timer(0, 10, TaskMsg::Close(id(1))), 0);
    assert_eq!(t.add_timer(0, 10, TaskMsg::Close(id(2))), 1);
    assert_eq!(t.handle_cmd(TimerCmd::New(0, 10, TaskMsg::Close(id(3)))), Some(2));
    assert_eq!(t.token_base, 3);
    assert_eq!(t.timer_list.len(), 3);
}

#[test]
fn timers_fire_once_their_limit_has_passed() {
    let mut t = Timer::new();
    t.add_timer(100, 50, TaskMsg::Close(id(1)));
    t.add_timer(100, 10, TaskMsg::Close(id(2)));
    t.add_timer(0, 500, TaskMsg::Close(id(3)));
    assert!(t.check_timers(109).is_empty());
    assert_eq!(ports(&t.check_timers(110)), vec![2]);
    assert!(t.check_timers(110).is_empty());
    assert_eq!(ports(&t.check_timers(1000)), vec![1, 3]);
    assert!(t.timer_list.is_empty());
}

#[test]
fn cancelled_timer_never_fires() {
    let mut t = Timer::new();
    let a = t.add_timer(0, 5, TaskMsg::Close(id(1)));
    let b = t.add_timer(0, 5, TaskMsg::Close(id(2)));
    assert_eq!(t.handle_cmd(TimerCmd::Cancel(a)), None);
    assert_eq!(ports(&t.check_timers(10)), vec![2]);
    t.cancel(b);
    assert!(t.check_timers(10).is_empty());
    // cancelling an unknown token changes nothing
    t.add_timer(0, 5, TaskMsg::Close(id(4)));
    t.cancel(77);
    assert_eq!(ports(&t.check_timers(5)), vec![4]);
}

#[test]
fn deadline_past_the_clock_never_fires() {
    let mut t = Timer::new();
    t.add_timer(u64::MAX, 1, TaskMsg::Close(id(1)));
    assert!(t.check_timers(u64::MAX).is_empty());
    assert_eq!(t.timer_list.len(), 1);
}

#[test]
fn every_timed_out_timer_fires_once() {
    let mut t = Timer::new();
    for p in 0..20u8 {
        t.add_timer(0, p as u64, TaskMsg::Close(id(p)));
    }
    assert_eq!(ports(&t.check_timers(9)), (0..10u8).collect::<Vec<u8>>());
    assert_eq!(t.timer_list.len(), 10);
    assert_eq!(ports(&t.check_timers(100)), (10..20u8).collect::<Vec<u8>>());
    assert!(t.timer_list.is_empty());
}
