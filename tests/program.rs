use dkparse::ast::{ArgNode, CallNode, StmtNode, ValueNode};
use dkparse::builtins::Registry;
use dkparse::chart::Chart;
use dkparse::interpreter::Interpreter;
use dkparse::span::Location;
use dkparse::value::Value;
use dkparse::{parse_str, Error};

#[test]
fn end_to_end_read_assignment() {
    let program = parse_str("chart = read(\"f.knit\")").unwrap();
    assert_eq!(program.0.len(), 1);
    let (target, args) = match &program.0[0] {
        StmtNode::Assign(v, CallNode(name, args)) => {
            assert_eq!(name, "read");
            (v.clone(), args)
        }
        StmtNode::Call(_) => panic!("expected an assignment"),
    };
    assert_eq!(target, "chart");
    assert_eq!(args.0.len(), 1);
    match &args.0[0] {
        ArgNode(ValueNode::String(s), None) => assert_eq!(s, "f.knit"),
        _ => panic!("expected one positional string argument"),
    }

    let registry = Registry::standard();
    let mut interpreter = Interpreter::new();
    let step = interpreter.eval_stmt(&registry, &program.0[0]).unwrap();
    assert_eq!(step.target.as_deref(), Some("chart"));
    assert_eq!(step.invocation.name, "read");
    assert_eq!(step.invocation.params.len(), 1);
    assert_eq!(step.invocation.params[0].0, "filename");
    assert_eq!(step.invocation.params[0].1.as_string().unwrap(), "f.knit");

    // What the read builtin hands back for the file.
    let read = Value::Chart(Chart::from_rows(vec![vec!['*', '.', '*']]).unwrap());
    interpreter.assign("chart", &read);
    let stored = interpreter.context.get_variable("chart").unwrap();
    let chart = stored.as_chart().unwrap();
    assert_eq!(chart.rows(), 1);
    assert_eq!(chart.cols(), 3);
    assert_eq!(chart.stitch(0, 2).unwrap(), '*');
}

#[test]
fn program_of_several_statements() {
    let text = "chart = read(\"in.knit\")\n  padded = pad(chart, pad_size = 5)\nwrite(padded, \"out.knit\")\n";
    let program = parse_str(text).unwrap();
    assert_eq!(program.0.len(), 3);
    match &program.0[1] {
        StmtNode::Assign(v, CallNode(name, args)) => {
            assert_eq!(v, "padded");
            assert_eq!(name, "pad");
            assert!(matches!(&args.0[0], ArgNode(ValueNode::Ident(c), None) if c == "chart"));
            assert!(matches!(&args.0[1], ArgNode(ValueNode::Number(5), Some(n)) if n == "pad_size"));
        }
        StmtNode::Call(_) => panic!("expected an assignment"),
    }
    match &program.0[2] {
        StmtNode::Call(CallNode(name, args)) => {
            assert_eq!(name, "write");
            assert_eq!(args.0.len(), 2);
        }
        StmtNode::Assign(..) => panic!("expected a bare call"),
    }
}

#[test]
fn empty_program_and_empty_call() {
    assert_eq!(parse_str("  \n ").unwrap().0.len(), 0);
    let program = parse_str("go( )").unwrap();
    match &program.0[0] {
        StmtNode::Call(CallNode(name, args)) => {
            assert_eq!(name, "go");
            assert_eq!(args.0.len(), 0);
        }
        StmtNode::Assign(..) => panic!("expected a bare call"),
    }
}

#[test]
fn syntax_errors_carry_locations() {
    match parse_str("x = read(\"a\"\n") {
        Err(Error::ParseError { location, .. }) => assert_eq!(location, Location::new(2, 1)),
        other => panic!("expected a parse error, got {:?}", other.map(|p| p.0.len())),
    }
    match parse_str("true = read(\"a\")") {
        Err(e) => assert_eq!(e.location(), Some(Location::new(1, 1))),
        Ok(_) => panic!("a reserved word is no variable"),
    }
    match parse_str("x = f(99999999999)") {
        Err(Error::NumberFormat { text, location }) => {
            assert_eq!(text, "99999999999");
            assert_eq!(location, Location::new(1, 7));
        }
        other => panic!("expected a number error, got {:?}", other.map(|p| p.0.len())),
    }
}

#[test]
fn pad_test_pad() {
    let rows = vec!["******", "*....*", "*.**.*"];
    let chart = Chart::from_rows(rows.iter().map(|r| r.chars().collect()).collect()).unwrap();
    let padded = chart.pad('.');
    let expected = vec!["........", ".******.", ".*....*.", ".*.**.*.", "........"];
    assert_eq!(padded.rows(), expected.len());
    for (r, line) in expected.iter().enumerate() {
        for (c, ch) in line.chars().enumerate() {
            assert_eq!(padded.stitch(r, c).unwrap(), ch);
        }
    }
}

#[test]
fn ragged_rows_are_no_chart() {
    assert!(Chart::from_rows(vec![vec!['*'], vec!['*', '*']]).is_none());
    let c = Chart::new(3, 2, '.');
    assert_eq!(c.rows(), 2);
    assert_eq!(c.cols(), 3);
    assert_eq!(c.stitch(1, 2).unwrap(), '.');
}

#[test]
fn chart_text_is_read_after_the_header() {
    let text = "# comment\nCHART v1\n*.*\n*\n\n..*.\n";
    let chart = Chart::read(text).unwrap();
    assert_eq!(chart.rows(), 4);
    assert_eq!(chart.cols(), 4);
    let expected = vec!["*.*.", "*...", "....", "..*."];
    for (r, line) in expected.iter().enumerate() {
        for (c, ch) in line.chars().enumerate() {
            assert_eq!(chart.stitch(r, c).unwrap(), ch);
        }
    }
}

#[test]
fn chart_text_needs_a_header() {
    assert_eq!(
        Chart::read("*.*\n.*.\n").err(),
        Some(dkparse::chart::ChartError::IncompleteHeader)
    );
}

#[test]
fn chart_text_written_and_read_back() {
    let chart = Chart::from_rows(vec![vec!['*', '.'], vec!['.', '*'], vec!['*', '*']]).unwrap();
    let text = chart.write_to_string();
    assert_eq!(text, "CHART\n*.\n.*\n**\n");
    let back = Chart::read(&text).unwrap();
    assert_eq!(back.rows(), 3);
    assert_eq!(back.cols(), 2);
    assert_eq!(back.write_to_string(), text);
}
