use vstd::prelude::*;

verus! {

/// vte's escape-sequence parser, carried through opaque.
#[verifier::external_type_specification]
#[verifier::external_body]
pub struct ExParser(vte::Parser);

/// The parameters that vte hands to its CSI and DCS callbacks, carried through
/// opaque.
#[verifier::external_type_specification]
#[verifier::external_body]
pub struct ExParams(vte::Params);

#[derive(Clone, Copy, Debug, PartialEq, Eq)]
/// One report of the escape-sequence parser: a printable character, a control
/// byte, or a piece of an escape, CSI, OSC or DCS sequence.
pub enum Token {
    Print(char),
    Execute(u8),
    Hook(char),
    Put(u8),
    Unhook,
    OscDispatch(bool),
    CsiDispatch(char),
    EscDispatch(u8),
}

/// Records the parser's reports in the order they come.
struct TokenLog {
    tokens: Vec<Token>,
}

impl vte::Perform for TokenLog {
    fn print(&mut self, c: char) {
        self.tokens.push(Token::Print(c));
    }

    fn execute(&mut self, byte: u8) {
        self.tokens.push(Token::Execute(byte));
    }

    fn hook(&mut self, _params: &vte::Params, _intermediates: &[u8], _ignore: bool, action: char) {
        self.tokens.push(Token::Hook(action));
    }

    fn put(&mut self, byte: u8) {
        self.tokens.push(Token::Put(byte));
    }

    fn unhook(&mut self) {
        self.tokens.push(Token::Unhook);
    }

    fn osc_dispatch(&mut self, _params: &[&[u8]], bell_terminated: bool) {
        self.tokens.push(Token::OscDispatch(bell_terminated));
    }

    fn csi_dispatch(&mut self, _params: &vte::Params, _intermediates: &[u8], _ignore: bool, action: char) {
        self.tokens.push(Token::CsiDispatch(action));
    }

    fn esc_dispatch(&mut self, _intermediates: &[u8], _ignore: bool, byte: u8) {
        self.tokens.push(Token::EscDispatch(byte));
    }
}

/// The reports that vte's parser, made fresh, gives while it is fed `input`
/// one byte after the other, in order.
pub uninterp spec fn tokens_of(input: Seq<u8>) -> Seq<Token>;

/// vte's parser, together with every byte it has been fed. Only `new` and
/// `advance` touch the parser, so the two always agree.
pub struct Scanner {
    parser: vte::Parser,
    fed: Ghost<Seq<u8>>,
}

impl Scanner {
    /// Every byte fed to the parser so far, in order.
    pub closed spec fn fed(&self) -> Seq<u8> {
        self.fed@
    }

    /// Relies on vte::Parser::new: a parser in its ground state, which has not
    /// reported anything yet.
    #[verifier::external_body]
    pub fn new() -> (r: Scanner)
        ensures
            r.fed() == Seq::<u8>::empty(),
            tokens_of(r.fed()) == Seq::<Token>::empty(),
    {
        Scanner { parser: vte::Parser::new(), fed: Ghost(Seq::empty()) }
    }

    /// Relies on vte::Parser::advance: the parser reports, through the Perform
    /// callbacks, what this byte completes. What it reports depends only on
    /// the bytes fed since it was made, and earlier reports are never taken
    /// back, so the reports for the longer input are the earlier ones
    /// followed by these.
    #[verifier::external_body]
    pub fn advance(&mut self, byte: u8) -> (r: Vec<Token>)
        ensures
            final(self).fed() == old(self).fed().push(byte),
            tokens_of(final(self).fed()) == tokens_of(old(self).fed()) + r@,
    {
        let mut log = TokenLog { tokens: Vec::new() };
        self.parser.advance(&mut log, byte);
        log.tokens
    }
}

} // verus!
