use ysos_core::data::ProcessData;
use ysos_core::io::{stderr, stdin, stdout, LineStep, Stdin};
use ysos_core::manager::ProcessManager;
use ysos_core::memory::{AddressSpace, Region, STACK_INIT_BOT, STACK_MAX_SIZE};
use ysos_core::pid::PidAllocator;
use ysos_core::process::{Process, ProgramStatus};
use ysos_core::resource::{Resource, ResourceSet, StdIO};

#[test]
fn line_editing() {
    let mut line: Vec<char> = Vec::new();
    assert_eq!(Stdin::edit_line(&mut line, 'h'), (LineStep::More, Some('h')));
    assert_eq!(Stdin::edit_line(&mut line, 'i'), (LineStep::More, Some('i')));
    assert_eq!(Stdin::edit_line(&mut line, '\x01'), (LineStep::More, None));
    assert_eq!(Stdin::edit_line(&mut line, '\x08'), (LineStep::More, Some('\x08')));
    assert_eq!(line, vec!['h']);
    assert_eq!(Stdin::edit_line(&mut line, '\n'), (LineStep::Done, Some('\n')));
    assert_eq!(line, vec!['h']);
    assert_eq!(Stdin::edit_line(&mut line, '\x04'), (LineStep::Done, None));
    assert_eq!(line, vec!['\x04']);
    assert_eq!(Stdin::edit_line(&mut line, '\x03'), (LineStep::Done, None));
    assert!(line.is_empty());
    assert_eq!(Stdin::edit_line(&mut line, '\x08'), (LineStep::More, None));
}

#[test]
fn console_calls() {
    let m = ProcessManager::new();
    assert_eq!(stdout().write(&m, "hello"), 5);
    assert_eq!(stderr().write(&m, "oops"), 4);
    assert_eq!(stdin().test(), "test");
    assert_eq!(stdin().read_char_with_buf(&m, 4, Some('x')), Some('x'));
    assert_eq!(stdin().read_char_with_buf(&m, 4, None), None);
    assert_eq!(stdin().read_char_with_buf(&m, 3, Some('x')), None);
}

#[test]
fn resource_table() {
    let mut t = ResourceSet::new();
    assert_eq!(t.get(0), Some(Resource::Console(StdIO::Stdin)));
    assert_eq!(t.write(1, 9), 9);
    assert_eq!(t.write(0, 9), -1);
    assert_eq!(t.read(0, 4, Some('a')), 1);
    assert_eq!(t.read(0, 4, Some('€')), 3);
    assert_eq!(t.open(Resource::Null), Some(3));
    assert_eq!(t.read(3, 4, None), 0);
    assert_eq!(t.write(3, 2), 2);
    assert!(t.close(3));
    assert!(!t.close(3));
    assert_eq!(t.read(3, 4, None), -1);
    assert_eq!(t.open(Resource::File(7)), Some(3));
    // a freed low descriptor is reused, the others keep their resources
    assert!(t.close(1));
    assert_eq!(t.open(Resource::Null), Some(1));
    assert_eq!(t.get(1), Some(Resource::Null));
    assert_eq!(t.get(3), Some(Resource::File(7)));
    assert_eq!(t.open(Resource::Null), Some(4));
    assert_eq!(t.write(3, 2), -1);
}

#[test]
fn process_data_environment() {
    let mut d = ProcessData::new(0);
    assert_eq!(d.env(&"id".to_string()), None);
    d.set_env("id".to_string(), "1".to_string());
    d.set_env("id".to_string(), "2".to_string());
    assert_eq!(d.env(&"id".to_string()), Some("2".to_string()));
    let copy = d.duplicate();
    assert_eq!(copy.env(&"id".to_string()), Some("2".to_string()));
    d.set_stack(0x1234_5678, 3);
    assert_eq!(d.stack_segment, Some(Region { start: 0x1234_5000, pages: 3 }));
    assert_eq!(d.get_memory_usage(), 3);
    assert!(d.is_on_stack(0x1000_0000));
    assert!(!d.is_on_stack(STACK_MAX_SIZE + 0x10));
}

#[test]
fn manager_environment() {
    let m = ProcessManager::new();
    assert_eq!(m.env(&"path".to_string()), None);
}

#[test]
fn init_stack_by_pid() {
    let mut pids = PidAllocator::new();
    let mut p = Process::new(&mut pids, "Kthread", None, AddressSpace::new(), ProcessData::new(0)).unwrap();
    assert_eq!(p.inner.name, "kthread");
    assert_eq!(p.pid().0, 2);
    let top = p.alloc_init_stack().unwrap();
    let bot = STACK_INIT_BOT - STACK_MAX_SIZE;
    assert_eq!(top, bot + 4096 - 8);
    // the slot is taken now
    assert_eq!(p.alloc_init_stack(), None);
    let copy = p.inner.clone_page_table().unwrap();
    assert!(copy.is_mapped(bot));
    assert!(!copy.is_mapped(bot - 1));
    p.inner.init_stack_frame(0x1000, top);
    assert_eq!(p.inner.context.rip, 0x1000);
    p.kill(3);
    assert_eq!(p.inner.status, ProgramStatus::Dead);
    assert!(p.inner.clone_page_table().is_none());
}
