use vstd::prelude::*;
use crate::codec::{validation, Entity, EntityModel, ValidationError};
use crate::lexer::{
    lex_pos, lex_step, step_number_failed, token_at, Command, Lexer, Token, TokenModel,
};
use crate::store::Database;

verus! {

/// Why a line was not carried out.
#[derive(Debug, Clone, Copy, PartialEq, Eq, Structural)]
pub enum CommandError {
    /// The line starts with no known command, or is empty.
    InvalidCommand,
    /// An insert is not followed by a number, a name and a description.
    InvalidEntity,
    /// The inserted entity breaks a validation rule.
    Rejected(ValidationError),
}

/// What a line that was carried out gives back.
#[derive(Debug)]
pub enum Reply {
    /// The stored entities, in insertion order.
    Rows(Vec<Entity>),
    Inserted,
    /// The line asks to end the session.
    Exit,
}

/// What a line asks for.
pub enum Action {
    Select,
    Insert(EntityModel),
    Exit,
    Fail(CommandError),
}

/// The action of an insert line: it must go on with exactly a number, a name and a
/// description.
pub open spec fn insert_action(s: Seq<char>) -> Action {
    match (token_at(s, 1), token_at(s, 2), token_at(s, 3), token_at(s, 4)) {
        (
            Some(TokenModel::Number(id)),
            Some(TokenModel::AlphaNumeric(name)),
            Some(TokenModel::AlphaNumeric(description)),
            None,
        ) => match validation(id, name, description) {
            Some(e) => Action::Fail(CommandError::Rejected(e)),
            None => Action::Insert((id, name, description)),
        },
        _ => Action::Fail(CommandError::InvalidEntity),
    }
}

/// The action of the line `s`, decided by its first tokens.
pub open spec fn action_of(s: Seq<char>) -> Action {
    match token_at(s, 0) {
        Some(TokenModel::Command(Command::SELECT)) => Action::Select,
        Some(TokenModel::Command(Command::INSERT)) => insert_action(s),
        Some(TokenModel::SpecialChar(c)) => if c == '.' {
            match token_at(s, 1) {
                Some(TokenModel::Command(Command::EXIT)) => Action::Exit,
                _ => Action::Fail(CommandError::InvalidCommand),
            }
        } else {
            Action::Fail(CommandError::InvalidCommand)
        },
        _ => Action::Fail(CommandError::InvalidCommand),
    }
}

/// `rows` holds exactly the entities `m`, in order.
pub open spec fn rows_are(rows: Vec<Entity>, m: Seq<EntityModel>) -> bool {
    &&& rows@.len() == m.len()
    &&& forall|i: int| 0 <= i < m.len() ==> #[trigger] rows@[i]@ == m[i]
}

/// The reply `r` is the one that action `a` owes on a store holding `before`.
pub open spec fn reply_fits(
    r: Result<Reply, CommandError>,
    a: Action,
    before: Seq<EntityModel>,
) -> bool {
    match a {
        Action::Select => match r {
            Ok(Reply::Rows(rows)) => rows_are(rows, before),
            _ => false,
        },
        Action::Insert(_) => r matches Ok(Reply::Inserted),
        Action::Exit => r matches Ok(Reply::Exit),
        Action::Fail(e) => r == Err::<Reply, CommandError>(e),
    }
}

/// The store contents after action `a` on `before`.
pub open spec fn after_action(a: Action, before: Seq<EntityModel>) -> Seq<EntityModel> {
    match a {
        Action::Insert(e) => before.push(e),
        _ => before,
    }
}

/// How many tokens of the line `s` the dispatcher reads.
pub open spec fn tokens_read(s: Seq<char>) -> nat {
    match token_at(s, 0) {
        Some(TokenModel::Command(Command::INSERT)) => 5,
        Some(TokenModel::SpecialChar(c)) => if c == '.' {
            2
        } else {
            1
        },
        _ => 1,
    }
}

/// One of the first `k` tokens of `s` is a number that did not parse.
pub open spec fn failed_among(s: Seq<char>, k: nat) -> bool
    decreases k,
{
    k > 0 && (failed_among(s, (k - 1) as nat) || step_number_failed(
        s,
        lex_pos(s, (k - 1) as nat),
    ))
}

/// The interpreter: it owns the store and carries out one line at a time.
pub struct App {
    database: Database,
    number_warning: bool,
}

impl View for App {
    type V = Seq<EntityModel>;

    closed spec fn view(&self) -> Seq<EntityModel> {
        self.database@
    }
}

impl App {
    /// The store is well formed.
    pub closed spec fn wf(&self) -> bool {
        self.database.wf()
    }

    /// Whether a number of the last line did not parse and was read as zero.
    pub closed spec fn number_warning(&self) -> bool {
        self.number_warning
    }

    pub fn new() -> (r: App)
        ensures
            r.wf(),
            r@ == Seq::<EntityModel>::empty(),
            !r.number_warning(),
    {
        App { database: Database::new(), number_warning: false }
    }

    /// Whether a number that the last line's dispatch read did not parse, and was read
    /// as zero.
    pub fn last_line_number_failed(&self) -> (r: bool)
        ensures
            r == self.number_warning(),
    {
        self.number_warning
    }

    /// Number of stored entities.
    pub fn len(&self) -> (r: usize)
        requires
            self.wf(),
        ensures
            r == self@.len(),
    {
        self.database.len()
    }

    /// Carries out a select or an insert whose keyword the lexer has just read.
    fn process_cmd(&mut self, command: Command, lexer: &mut Lexer) -> (r: Result<
        Reply,
        CommandError,
    >)
        requires
            old(self).wf(),
            old(self)@.len() < usize::MAX,
            command != Command::EXIT,
            token_at(old(lexer).text(), 0) == Some(TokenModel::Command(command)),
            old(lexer).position() == lex_pos(old(lexer).text(), 1),
            old(self).number_warning() == failed_among(old(lexer).text(), 1),
        ensures
            final(self).wf(),
            reply_fits(r, action_of(old(lexer).text()), old(self)@),
            final(self)@ == after_action(action_of(old(lexer).text()), old(self)@),
            final(self).number_warning() == failed_among(
                old(lexer).text(),
                tokens_read(old(lexer).text()),
            ),
            command == Command::SELECT ==> *final(lexer) == *old(lexer),
    {
        let ghost s = lexer.text();
        match command {
            Command::SELECT => Ok(Reply::Rows(self.database.select())),
            _ => {
                let id_opt = lexer.next();
                self.number_warning = self.number_warning || lexer.last_number_failed();
                assert(lex_pos(s, 2) == lex_step(s, lex_pos(s, 1)).1);
                assert(failed_among(s, 2) == (failed_among(s, 1) || step_number_failed(s, lex_pos(s, 1))));
                let name_opt = lexer.next();
                self.number_warning = self.number_warning || lexer.last_number_failed();
                assert(lex_pos(s, 3) == lex_step(s, lex_pos(s, 2)).1);
                assert(failed_among(s, 3) == (failed_among(s, 2) || step_number_failed(s, lex_pos(s, 2))));
                let description_opt = lexer.next();
                self.number_warning = self.number_warning || lexer.last_number_failed();
                assert(lex_pos(s, 4) == lex_step(s, lex_pos(s, 3)).1);
                assert(failed_among(s, 4) == (failed_among(s, 3) || step_number_failed(s, lex_pos(s, 3))));
                let extra_opt = lexer.next();
                self.number_warning = self.number_warning || lexer.last_number_failed();
                assert(failed_among(s, 5) == (failed_among(s, 4) || step_number_failed(s, lex_pos(s, 4))));
                match (id_opt, name_opt, description_opt, extra_opt) {
                    (
                        Some(Token::Number(id)),
                        Some(Token::AlphaNumeric(name)),
                        Some(Token::AlphaNumeric(description)),
                        None,
                    ) => match Entity::new(id, name, description) {
                        Ok(e) => {
                            self.database.insert(e);
                            Ok(Reply::Inserted)
                        },
                        Err(e) => Err(CommandError::Rejected(e)),
                    },
                    _ => Err(CommandError::InvalidEntity),
                }
            },
        }
    }

    /// Tokenizes one line and carries it out: select returns the rows, insert stores
    /// an entity, `.exit` asks to end; anything else is an error and changes nothing.
    /// Afterwards `last_line_number_failed` tells whether a number that was read did
    /// not parse.
    pub fn evaluate_input(&mut self, buffer: String) -> (r: Result<Reply, CommandError>)
        requires
            old(self).wf(),
            old(self)@.len() < usize::MAX,
        ensures
            final(self).wf(),
            reply_fits(r, action_of(buffer@), old(self)@),
            final(self)@ == after_action(action_of(buffer@), old(self)@),
            final(self).number_warning() == failed_among(buffer@, tokens_read(buffer@)),
    {
        let ghost s = buffer@;
        let mut lexer = Lexer::new(buffer);
        assert(lex_pos(s, 0) == 0);
        assert(lex_pos(s, 1) == lex_step(s, lex_pos(s, 0)).1);
        let first = lexer.next();
        self.number_warning = lexer.last_number_failed();
        assert(failed_among(s, 0) == false);
        assert(failed_among(s, 1) == step_number_failed(s, lex_pos(s, 0)));
        match first {
            Some(Token::Command(command)) => {
                if command == Command::EXIT {
                    Err(CommandError::InvalidCommand)
                } else {
                    self.process_cmd(command, &mut lexer)
                }
            },
            Some(Token::SpecialChar(c)) => {
                if c == '.' {
                    let second = lexer.next();
                    self.number_warning = self.number_warning || lexer.last_number_failed();
                    assert(failed_among(s, 2) == (failed_among(s, 1) || step_number_failed(s, lex_pos(s, 1))));
                    match second {
                        Some(Token::Command(Command::EXIT)) => Ok(Reply::Exit),
                        _ => Err(CommandError::InvalidCommand),
                    }
                } else {
                    Err(CommandError::InvalidCommand)
                }
            },
            _ => Err(CommandError::InvalidCommand),
        }
    }
}

} // verus!
