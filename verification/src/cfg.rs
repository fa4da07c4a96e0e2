//! What the server is configured with.

use vstd::prelude::*;
use vstd::string::*;
use crate::decimal::{denoted, parse_count};

verus! {

/// How many bytes of a request are read.
pub const RECV_BUFFER_SIZE: usize = 1024;

/// The directory whose files are served; every resolved path begins with it.
pub const PUBLIC_PFX: &'static str = "./public";

/// The style sheet of the pages that the server writes itself.
pub const STYLES: &'static str = "
  :root {
	--primary: #8686f3;
	--secondary: #61a051;
	--light: #e5e5ee;
	--dark: #423433;
	--chalk: #f0f0f0;
  }
  
  body {
	background-color: var(--dark);
	color: var(--light);
	font-family: \"Lucida Console\", \"Courier New\", monospace;
	text-align: center;
	display: flex;
	justify-content: center;
	align-items: center;
  }
  
  .col {
	flex-direction: column;
  }
  
  ul {
	list-style-type: none;
	display: inline-block;
	text-align: left;
  }
  
  li {
	padding: 4px;
  }
  
  a {
	text-decoration: none;
	color: var(--primary);
  }
  
  .dir {
	color: var(--secondary);
  }
  
  .bg {
	width: 70%;
  }";

/// Where the server listens, and with how many workers.
pub struct Config {
    pub addr: String,
    pub workers: usize,
}

/// The address that the server listens on where none is given.
pub open spec fn default_addr() -> Seq<char> {
    "127.0.0.1:5000"@
}

/// The number of workers where none is given, or none that can be read.
pub open spec fn default_workers() -> nat {
    4
}

/// The number of workers that an argument asks for.
pub open spec fn workers_from(arg: Option<Seq<char>>) -> nat {
    match arg {
        Some(text) => match denoted(text) {
            Some(n) => if n <= usize::MAX {
                n
            } else {
                default_workers()
            },
            None => default_workers(),
        },
        None => default_workers(),
    }
}

impl Config {
    /// The configuration that the first two arguments of the program ask for:
    /// the address, and the number of workers in decimal notation.
    pub fn new(addr: Option<String>, workers: Option<String>) -> (cfg: Config)
        ensures
            cfg.addr@ == match addr {
                Some(text) => text@,
                None => default_addr(),
            },
            cfg.workers == workers_from(
                match workers {
                    Some(text) => Some(text@),
                    None => None,
                },
            ),
    {
        let addr = match addr {
            Some(text) => text,
            None => String::from_str("127.0.0.1:5000"),
        };
        let workers: usize = match workers {
            Some(text) => match parse_count(text.as_str()) {
                Some(n) => n,
                None => 4,
            },
            None => 4,
        };
        Config { addr, workers }
    }
}

} // verus!
