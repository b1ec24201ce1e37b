use script_frontend::lexer::Lexer;
use script_frontend::parser::Parser;

const ALPHABET: [char; 20] = [
    'a', 'f', '1', '0', '_', '.', '"', '\\', '\n', '/', '*', 'u', 'e', '+', '=', '(', ')', ',',
    ' ', 'é',
];

/// Every text of up to `len` characters of the alphabet.
fn texts(len: usize) -> Vec<String> {
    let mut all = vec![String::new()];
    let mut last = vec![String::new()];
    for _ in 0..len {
        let mut next = Vec::new();
        for text in &last {
            for c in ALPHABET {
                let mut longer = text.clone();
                longer.push(c);
                next.push(longer);
            }
        }
        all.extend(next.iter().cloned());
        last = next;
    }
    all
}

#[test]
fn spans_follow_each_other_and_cover_what_is_no_blank_or_comment() {
    for text in texts(4) {
        let mut lexer = Lexer::new(&text);
        let mut end = 0;
        let mut steps = 0;
        while let Some(item) = lexer.next() {
            let (from, to) = lexer.span();
            assert!(end <= from && from < to && to <= text.len(), "{:?}", text);
            assert_eq!(lexer.slice(), &text[from..to], "{:?}", text);
            if let Err(error) = item {
                assert_eq!((error.start, error.end), (from, to), "{:?}", text);
            }
            // What lies between two tokens holds nothing that could start one.
            let between = &text[end..from];
            assert!(
                between.starts_with("//")
                    || between.starts_with("/*")
                    || between.chars().all(|c| c == ' ' || c == '\n'),
                "{:?}",
                text
            );
            end = to;
            steps += 1;
            assert!(steps <= text.len(), "{:?}", text);
        }
        assert_eq!(lexer.span(), (text.len(), text.len()), "{:?}", text);
    }
}

#[test]
fn a_parse_consumes_tokens_in_order_whatever_the_text() {
    for text in texts(4) {
        // What the lexer yields one by one.
        let mut lexer = Lexer::new(&text);
        let mut kinds = Vec::new();
        while let Some(item) = lexer.next() {
            kinds.push(item);
        }

        // A parse leaves a suffix of them.
        let mut parser = Parser::new(&text);
        let _ = parser.parse_expr();
        let mut rest = Vec::new();
        while let Some(item) = parser.advance() {
            rest.push(item);
        }
        assert!(kinds.ends_with(&rest), "{:?}", text);

        let mut parser = Parser::new(&text);
        if parser.parse_module().is_ok() {
            assert_eq!(parser.peek(), None, "{:?}", text);
        }
    }
}
