use chibicc_rust::{Token, TokenQueue};

#[test]
fn test_tokenizer_add() {
    let token_queue = TokenQueue::tokenizer("1+2");
    match token_queue {
        Ok(token_queue) => {
            assert_eq!(
                token_queue[0],
                Token::Num {
                    raw: "1".to_string(),
                    val: 1
                }
            );
            assert_eq!(
                token_queue[1],
                Token::Reserved {
                    keyword: "+".to_string()
                }
            );
            assert_eq!(
                token_queue[2],
                Token::Num {
                    raw: "2".to_string(),
                    val: 2
                }
            );
            assert_eq!(token_queue[3], Token::Eof);
        }
        Err(e) => {
            panic!("{:?}", e);
        }
    }
}

#[test]
fn test_tokenizer_add_with_whitespace() {
    let token_queue = TokenQueue::tokenizer(" 1 + 2 ");
    match token_queue {
        Ok(token_queue) => {
            assert_eq!(
                token_queue[0],
                Token::Num {
                    raw: "1".to_string(),
                    val: 1
                }
            );
            assert_eq!(
                token_queue[1],
                Token::Reserved {
                    keyword: "+".to_string()
                }
            );
            assert_eq!(
                token_queue[2],
                Token::Num {
                    raw: "2".to_string(),
                    val: 2
                }
            );
            assert_eq!(token_queue[3], Token::Eof);
        }
        Err(e) => {
            panic!("{:?}", e);
        }
    }
}
#[test]
fn test_tokenizer_with_whitespace() {
    let token_queue = TokenQueue::tokenizer(" 12 + 34 - 5  +    2 ");
    match token_queue {
        Ok(token_queue) => {
            assert_eq!(
                token_queue.0,
                vec![
                    Token::Num {
                        raw: "12".to_string(),
                        val: 12
                    },
                    Token::Reserved {
                        keyword: "+".to_string()
                    },
                    Token::Num {
                        raw: "34".to_string(),
                        val: 34
                    },
                    Token::Reserved {
                        keyword: "-".to_string()
                    },
                    Token::Num {
                        raw: "5".to_string(),
                        val: 5
                    },
                    Token::Reserved {
                        keyword: "+".to_string()
                    },
                    Token::Num {
                        raw: "2".to_string(),
                        val: 2
                    },
                    Token::Eof
                ]
            );
        }
        Err(e) => {
            panic!("{:?}", e);
        }
    }
}

#[test]
fn test_tokenizer_mul() {
    let token_queue = TokenQueue::tokenizer("3+1*2");
    match token_queue {
        Ok(token_queue) => {
            assert_eq!(
                token_queue.0,
                vec![
                    Token::Num {
                        raw: "3".to_string(),
                        val: 3
                    },
                    Token::Reserved {
                        keyword: "+".to_string()
                    },
                    Token::Num {
                        raw: "1".to_string(),
                        val: 1
                    },
                    Token::Reserved {
                        keyword: "*".to_string()
                    },
                    Token::Num {
                        raw: "2".to_string(),
                        val: 2
                    },
                    Token::Eof,
                ]
            );
        }
        Err(e) => {
            panic!("{:?}", e);
        }
    }
}

#[test]
fn test_tokenizer_double_op() {
    let token_queue = TokenQueue::tokenizer("3+1==2").expect("tokenizer error");
    assert_eq!(
        token_queue.0,
        vec![
            Token::Num {
                raw: "3".to_string(),
                val: 3
            },
            Token::Reserved {
                keyword: "+".to_string()
            },
            Token::Num {
                raw: "1".to_string(),
                val: 1
            },
            Token::Reserved {
                keyword: "==".to_string()
            },
            Token::Num {
                raw: "2".to_string(),
                val: 2
            },
            Token::Eof
        ]
    );
}
#[test]
fn test_tokenizer_return_assign() {
    let token_queue =
        TokenQueue::tokenizer("foo123=3; bar=5; return foo123+bar;").expect("tokenizer error");
    assert_eq!(
        token_queue.0,
        vec![
            Token::Ident {
                name: "foo123".to_string()
            },
            Token::Reserved {
                keyword: "=".to_string()
            },
            Token::Num {
                raw: "3".to_string(),
                val: 3
            },
            Token::Reserved {
                keyword: ";".to_string()
            },
            Token::Ident {
                name: "bar".to_string()
            },
            Token::Reserved {
                keyword: "=".to_string()
            },
            Token::Num {
                raw: "5".to_string(),
                val: 5
            },
            Token::Reserved {
                keyword: ";".to_string()
            },
            Token::Reserved {
                keyword: "return".to_string()
            },
            Token::Ident {
                name: "foo123".to_string()
            },
            Token::Reserved {
                keyword: "+".to_string()
            },
            Token::Ident {
                name: "bar".to_string()
            },
            Token::Reserved {
                keyword: ";".to_string()
            },
            Token::Eof
        ]
    );
}
