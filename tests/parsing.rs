use myco::command::{parse_number, Args, Error, ParseArgs};
use myco::grid::Dir;
use myco::instruction::Instruction;

#[test]
fn splits_on_whitespace() {
    let mut args = Args::from_command("  write  -=\t.. \u{3000}x ");
    assert_eq!(args.next_raw(), Some("write"));
    assert_eq!(args.next_raw(), Some("-="));
    assert_eq!(args.next_raw(), Some(".."));
    assert_eq!(args.next_raw(), Some("x"));
    assert_eq!(args.next_raw(), None);
    assert!(args.is_end());
    let mut empty = Args::from_command("   ");
    assert_eq!(empty.next_raw(), None);
}

#[test]
fn parses_typed_arguments() {
    let mut args = Args::from_command("> 12 +7 -= 300");
    assert!(matches!(Dir::from_args(&mut args), Ok(Dir::R)));
    assert!(matches!(u16::from_args(&mut args), Ok(12)));
    assert!(matches!(u8::from_args(&mut args), Ok(7)));
    assert!(matches!(Instruction::from_args(&mut args), Ok(Instruction::FlagFork)));
    assert!(matches!(u8::from_args(&mut args), Err(Error::BadNumber)));
    assert!(matches!(u8::from_args(&mut args), Err(Error::NoNumber)));
    assert!(matches!(Option::<u8>::from_args(&mut args), Ok(None)));
}

#[test]
fn parses_lists_and_pairs() {
    let mut args = Args::from_command("+a +a @@");
    let list = Vec::<Instruction>::from_args(&mut args).ok().unwrap();
    assert_eq!(list, vec![Instruction::IncA, Instruction::IncA, Instruction::Halt]);
    let mut pair = Args::from_command("v 3");
    let (d, n) = <(Dir, Option<u16>)>::from_args(&mut pair).ok().unwrap();
    assert_eq!((d, n), (Dir::D, Some(3)));
    let mut bad = Args::from_command("q");
    assert!(matches!(Dir::from_args(&mut bad), Err(Error::BadDirection)));
    let mut none = Args::from_command("");
    assert!(matches!(Instruction::from_args(&mut none), Err(Error::NoInstruction)));
}

#[test]
fn extra_arguments_are_reported() {
    let mut args = Args::from_command("spawn now");
    args.next_raw();
    match args.ensure_final() {
        Err(e) => assert_eq!(e.description(), "Unexpected argument 'now'."),
        Ok(()) => panic!("expected an error"),
    }
    args.next_raw();
    assert!(args.ensure_final().is_ok());
    assert_eq!(Error::ZeroSpeed.description(), "Speed cannot be set to 0.");
    assert_eq!(Error::NoDirection.description(), "Expected one of < > ^ v.");
}

#[test]
fn numbers() {
    assert_eq!(parse_number("0", 10), Some(0));
    assert_eq!(parse_number("+10", 10), Some(10));
    assert_eq!(parse_number("11", 10), None);
    assert_eq!(parse_number("", 10), None);
    assert_eq!(parse_number("+", 10), None);
    assert_eq!(parse_number("1a", 10), None);
    assert_eq!(parse_number("-1", 10), None);
    assert_eq!(parse_number("18446744073709551615", u64::MAX), Some(u64::MAX));
    assert_eq!(parse_number("18446744073709551616", u64::MAX), None);
    assert_eq!(parse_number("99999999999999999999999", 5), None);
}
