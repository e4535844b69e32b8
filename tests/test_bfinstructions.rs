use brainrusty::bfmachine::{BfAction, BfError, BfMachine, TAPE_SIZE};

fn run_to_end(bfm: &mut BfMachine) -> Result<(), BfError> {
    loop {
        if bfm.step()? == BfAction::Halted {
            return Ok(());
        }
    }
}

#[test]
fn move_pointer_to_right() {
    let program = ">>>".as_bytes().to_vec();
    let mut bfm = BfMachine::parse(program).unwrap();

    let _ = run_to_end(&mut bfm);

    assert_eq!(bfm.tp, 3);
}

#[test]
fn move_pointer_to_left() {
    let program = ">>><<<".as_bytes().to_vec();
    let mut bfm = BfMachine::parse(program).unwrap();

    let _ = run_to_end(&mut bfm);

    assert_eq!(bfm.tp, 0);
}

#[test]
fn increase_cell() {
    let program = "+++".as_bytes().to_vec();
    let mut bfm = BfMachine::parse(program).unwrap();

    let _ = run_to_end(&mut bfm);

    assert_eq!(bfm.tape[bfm.tp as usize], 3);
}

#[test]
fn decrease_cell() {
    let program = "+++---".as_bytes().to_vec();
    let mut bfm = BfMachine::parse(program).unwrap();

    let _ = run_to_end(&mut bfm);

    assert_eq!(bfm.tape[bfm.tp as usize], 0);
}

#[test]
fn loop_start_and_end() {
    let program = "++++++[-]".as_bytes().to_vec();
    let mut bfm = BfMachine::parse(program).unwrap();

    let _ = run_to_end(&mut bfm);

    assert_eq!(bfm.tape[bfm.tp as usize], 0);
}

#[test]
fn out_of_bounds_to_right() {
    let mut program = String::new();
    for _ in 0..TAPE_SIZE + 1 {
        program.push('>');
    }
    let mut bfm = BfMachine::parse(program.as_bytes().to_vec()).unwrap();

    assert_eq!(run_to_end(&mut bfm).unwrap_err(), BfError::OutOfBounds);
}

#[test]
fn out_of_bounds_to_left() {
    let program = "<".as_bytes().to_vec();
    let mut bfm = BfMachine::parse(program).unwrap();

    assert_eq!(run_to_end(&mut bfm).unwrap_err(), BfError::OutOfBounds);
}

#[test]
fn wrap_around_to_0() {
    let mut program = String::new();
    for _ in 0..256 {
        program.push('+');
    }

    let mut bfm = BfMachine::parse(program.as_bytes().to_vec()).unwrap();
    let _ = run_to_end(&mut bfm);

    assert_eq!(bfm.tape[bfm.tp as usize], 0);
}

#[test]
fn wrap_around_to_255() {
    let program = "-".as_bytes().to_vec();
    let mut bfm = BfMachine::parse(program).unwrap();
    let _ = run_to_end(&mut bfm);

    assert_eq!(bfm.tape[bfm.tp as usize], 255);
}

#[test]
fn last_cell_is_reachable_and_right_of_it_fails() {
    let mut program = String::new();
    for _ in 0..TAPE_SIZE - 1 {
        program.push('>');
    }
    let mut bfm = BfMachine::parse(program.as_bytes().to_vec()).unwrap();
    assert_eq!(run_to_end(&mut bfm), Ok(()));
    assert_eq!(bfm.tp as usize, TAPE_SIZE - 1);

    program.push('>');
    let mut bfm = BfMachine::parse(program.as_bytes().to_vec()).unwrap();
    assert_eq!(run_to_end(&mut bfm), Err(BfError::OutOfBounds));
    assert_eq!(bfm.tp as usize, TAPE_SIZE - 1);
    assert_eq!(bfm.pc, TAPE_SIZE - 1);
}

#[test]
fn failed_step_leaves_machine_unchanged() {
    let mut bfm = BfMachine::parse("+<".as_bytes().to_vec()).unwrap();

    assert_eq!(bfm.step(), Ok(BfAction::Continue));
    assert_eq!(bfm.step(), Err(BfError::OutOfBounds));
    assert_eq!(bfm.pc, 1);
    assert_eq!(bfm.tp, 0);
    assert_eq!(bfm.tape[0], 1);
}

#[test]
fn loop_start_over_zero_cell_jumps_to_its_end() {
    let mut bfm = BfMachine::parse("[+]+".as_bytes().to_vec()).unwrap();

    assert_eq!(bfm.step(), Ok(BfAction::Continue));
    assert_eq!(bfm.pc, 2);
    assert_eq!(bfm.step(), Ok(BfAction::Continue));
    assert_eq!(bfm.pc, 3);
    assert_eq!(run_to_end(&mut bfm), Ok(()));
    assert_eq!(bfm.tape[0], 1);
}

#[test]
fn loop_end_over_nonzero_cell_jumps_to_its_start() {
    let mut bfm = BfMachine::parse("++[-]".as_bytes().to_vec()).unwrap();

    for _ in 0..4 {
        assert_eq!(bfm.step(), Ok(BfAction::Continue));
    }
    assert_eq!(bfm.pc, 4);
    assert_eq!(bfm.step(), Ok(BfAction::Continue));
    assert_eq!(bfm.pc, 2);
}

#[test]
fn step_past_the_end_halts() {
    let mut bfm = BfMachine::parse("+".as_bytes().to_vec()).unwrap();

    assert_eq!(bfm.step(), Ok(BfAction::Continue));
    assert_eq!(bfm.step(), Ok(BfAction::Halted));
    assert_eq!(bfm.step(), Ok(BfAction::Halted));
    assert_eq!(bfm.pc, 1);
}

#[test]
fn write_reports_current_cell() {
    let mut bfm = BfMachine::parse("+++.".as_bytes().to_vec()).unwrap();

    for _ in 0..3 {
        assert_eq!(bfm.step(), Ok(BfAction::Continue));
    }
    assert_eq!(bfm.step(), Ok(BfAction::WriteOutput(3)));
    assert_eq!(bfm.pc, 4);
}

#[test]
fn read_stores_first_byte_of_line() {
    let mut bfm = BfMachine::parse(",>,".as_bytes().to_vec()).unwrap();

    assert_eq!(bfm.step(), Ok(BfAction::ReadInput));
    assert_eq!(bfm.pc, 1);
    bfm.store_input(&"hi\n".as_bytes().to_vec());
    assert_eq!(bfm.tape[0], b'h');

    assert_eq!(bfm.step(), Ok(BfAction::Continue));
    assert_eq!(bfm.step(), Ok(BfAction::ReadInput));
    bfm.store_input(&Vec::new());
    assert_eq!(bfm.tape[1], 0);
    assert_eq!(bfm.tp, 1);
}
