use wasi_selector::cells::Pool;
use wasi_selector::readiness::Readiness;
use wasi_selector::registrations::{Registration, Registrations};
use wasi_selector::token::{Interest, Token};

const SPENT: Readiness = Readiness { read: false, write: 0 };

#[test]
fn cells_are_added_while_none_is_vacant() {
    let mut pool = Pool::new();
    let mut cells: Vec<Readiness> = vec![];
    assert_eq!(pool.len(), 0);
    assert_eq!(pool.take(&mut cells), 0);
    assert_eq!(pool.take(&mut cells), 1);
    assert_eq!((pool.len(), cells.len()), (2, 2));
    assert!(pool.holds(0) && pool.holds(1) && !pool.holds(2));
}

#[test]
fn released_cell_is_taken_again_and_armed() {
    let mut pool = Pool::new();
    let mut cells: Vec<Readiness> = vec![];
    let first = pool.take(&mut cells);
    let second = pool.take(&mut cells);
    cells[first] = SPENT;
    cells[second] = SPENT;
    pool.release(first);
    assert!(!pool.holds(first) && pool.holds(second));
    assert_eq!(pool.take(&mut cells), first);
    assert_eq!(cells, vec![Readiness::new(), SPENT]);
    assert_eq!((pool.len(), cells.len()), (2, 2));
}

#[test]
fn releasing_twice_does_not_hand_a_cell_out_twice() {
    let mut pool = Pool::new();
    let mut cells: Vec<Readiness> = vec![];
    let cell = pool.take(&mut cells);
    pool.release(cell);
    pool.release(cell);
    pool.release(7);
    assert_eq!(pool.take(&mut cells), 0);
    assert_eq!(pool.take(&mut cells), 1);
}

#[test]
fn registrations_are_live_if_their_cells_exist() {
    let both = Interest { readable: true, writable: true };
    let mut pool = Pool::new();
    let mut cells: Vec<Readiness> = vec![];
    let mut regs = Registrations::new();
    assert!(regs.is_live(&cells));
    let cell = pool.take(&mut cells);
    regs.insert(3, Registration { token: Token(30), interests: both, cell });
    assert!(regs.is_live(&cells));
    regs.insert(4, Registration { token: Token(40), interests: both, cell: 1 });
    assert!(!regs.is_live(&cells));
    pool.take(&mut cells);
    assert!(regs.is_live(&cells));
}
