use ayaka::exec::{BinaryOp, Expr, LogicBinaryOp, Program, Ref, UnaryOp, ValBinaryOp};
use ayaka::raw_value::RawValue;

#[test]
fn expressions_clone_deeply() {
    let e = Expr::Binary(
        Box::new(Expr::Unary(UnaryOp::Not, Box::new(Expr::Ref(Ref::Ctx("a".to_string()))))),
        BinaryOp::Logic(LogicBinaryOp::And),
        Box::new(Expr::Call(
            "math".to_string(),
            "max".to_string(),
            vec![
                Expr::Const(RawValue::Num(1)),
                Expr::Binary(
                    Box::new(Expr::Ref(Ref::Var("x".to_string()))),
                    BinaryOp::Inplace(ValBinaryOp::Add),
                    Box::new(Expr::Const(RawValue::Str("s".to_string()))),
                ),
                Expr::Call("".to_string(), "f".to_string(), vec![]),
            ],
        )),
    );
    assert_eq!(e.clone(), e);
    let p = Program(vec![e.clone(), Expr::Const(RawValue::Unit)]);
    assert_eq!(p.clone(), p);
    assert_eq!(Ref::Var("v".to_string()).clone(), Ref::Var("v".to_string()));
}
