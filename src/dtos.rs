use vstd::prelude::*;

verus! {

/// The page size used when a request names none.
pub const DEFAULT_LIMIT: i64 = 100;

pub open spec fn or_default(v: Option<i64>, d: i64) -> i64 {
    match v {
        Some(x) => x,
        None => d,
    }
}

/// A prefix filter as a SQL `LIKE` pattern.
pub open spec fn prefix_pattern(prefix: Option<String>) -> Seq<char> {
    match prefix {
        Some(p) => p@ + "%"@,
        None => "%"@,
    }
}

fn prefix_pattern_of(prefix: &Option<String>) -> (r: String)
    ensures
        r@ == prefix_pattern(*prefix),
{
    match prefix {
        Some(p) => {
            let mut s = p.clone();
            s.append("%");
            s
        },
        None => String::from_str("%"),
    }
}

/// Query parameters of a book search.
#[derive(Debug, Default)]
pub struct BookFilterDto {
    pub title: Option<String>,
    pub author: Option<String>,
    pub offset: Option<i64>,
    pub limit: Option<i64>,
}

impl BookFilterDto {
    /// The title filter as a SQL `LIKE` pattern: the given prefix followed by
    /// `%`, or `%` alone (any title) when none is given.
    pub fn title(&self) -> (r: String)
        ensures
            r@ == prefix_pattern(self.title),
    {
        prefix_pattern_of(&self.title)
    }

    /// The author filter as a SQL `LIKE` pattern, as for the title.
    pub fn author(&self) -> (r: String)
        ensures
            r@ == prefix_pattern(self.author),
    {
        prefix_pattern_of(&self.author)
    }

    /// How many rows to skip: 0 unless given.
    pub fn offset(&self) -> (r: i64)
        ensures
            r == or_default(self.offset, 0),
    {
        match self.offset {
            Some(v) => v,
            None => 0,
        }
    }

    /// How many rows to return at most: 100 unless given.
    pub fn limit(&self) -> (r: i64)
        ensures
            r == or_default(self.limit, DEFAULT_LIMIT),
    {
        match self.limit {
            Some(v) => v,
            None => DEFAULT_LIMIT,
        }
    }
}

/// Query parameters of a book search, as the HTTP layer receives them.
#[derive(Debug, Default)]
pub struct BookFilterPayload {
    pub title: Option<String>,
    pub author: Option<String>,
    pub offset: Option<i64>,
    pub limit: Option<i64>,
}

impl BookFilterPayload {
    /// The title filter as a SQL `LIKE` pattern: the given prefix followed by
    /// `%`, or `%` alone (any title) when none is given.
    pub fn title(&self) -> (r: String)
        ensures
            r@ == prefix_pattern(self.title),
    {
        prefix_pattern_of(&self.title)
    }

    /// The author filter as a SQL `LIKE` pattern, as for the title.
    pub fn author(&self) -> (r: String)
        ensures
            r@ == prefix_pattern(self.author),
    {
        prefix_pattern_of(&self.author)
    }

    /// How many rows to skip: 0 unless given.
    pub fn offset(&self) -> (r: i64)
        ensures
            r == or_default(self.offset, 0),
    {
        match self.offset {
            Some(v) => v,
            None => 0,
        }
    }

    /// How many rows to return at most: 100 unless given.
    pub fn limit(&self) -> (r: i64)
        ensures
            r == or_default(self.limit, DEFAULT_LIMIT),
    {
        match self.limit {
            Some(v) => v,
            None => DEFAULT_LIMIT,
        }
    }
}

/// Offset and limit of an order listing.
#[derive(Debug, Default, Clone, Copy, PartialEq, Eq)]
pub struct Pagination {
    pub offset: Option<i64>,
    pub limit: Option<i64>,
}

impl Pagination {
    /// How many rows to skip: 0 unless given.
    pub fn offset(&self) -> (r: i64)
        ensures
            r == or_default(self.offset, 0),
    {
        match self.offset {
            Some(v) => v,
            None => 0,
        }
    }

    /// How many rows to return at most: 100 unless given.
    pub fn limit(&self) -> (r: i64)
        ensures
            r == or_default(self.limit, DEFAULT_LIMIT),
    {
        match self.limit {
            Some(v) => v,
            None => DEFAULT_LIMIT,
        }
    }
}

/// Offset and limit of an order listing, as the HTTP layer receives them.
#[derive(Debug, Default, Clone, Copy, PartialEq, Eq)]
pub struct PaginationPayload {
    pub offset: Option<i64>,
    pub limit: Option<i64>,
}

impl PaginationPayload {
    /// How many rows to skip: 0 unless given.
    pub fn offset(&self) -> (r: i64)
        ensures
            r == or_default(self.offset, 0),
    {
        match self.offset {
            Some(v) => v,
            None => 0,
        }
    }

    /// How many rows to return at most: 100 unless given.
    pub fn limit(&self) -> (r: i64)
        ensures
            r == or_default(self.limit, DEFAULT_LIMIT),
    {
        match self.limit {
            Some(v) => v,
            None => DEFAULT_LIMIT,
        }
    }
}

/// A sign-in request.
#[derive(Debug, PartialEq, Eq)]
pub struct LoginPayload {
    pub email: String,
    pub password: String,
}

/// A new account's details.
#[derive(Debug, PartialEq, Eq)]
pub struct RegisterPayload {
    pub email: String,
    pub password: String,
    pub name: String,
}

/// A password change: the current password and the one to replace it.
#[derive(Debug, PartialEq, Eq)]
pub struct ChangePasswordPayload {
    pub old_password: String,
    pub new_password: String,
}

} // verus!
