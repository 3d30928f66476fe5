//! The machine's command-line options and the configuration they describe.
use vstd::prelude::*;
use crate::config::{DeviceConfig, GeneralDeviceConfig, VmConfig};
use crate::text::owned;

verus! {

/// Command-line options: the object file, a configuration (inline or a file name), the
/// main RAM size, and the default decimal device's port, input and output, or its absence.
#[derive(Debug)]
pub struct Args {
    pub input: Option<String>,
    pub config: Option<String>,
    pub memory_size: Option<u32>,
    pub decimal_port: Option<u32>,
    pub decimal_input: Option<String>,
    pub decimal_output: Option<String>,
    pub no_decimal_io: bool,
}

/// The main RAM size used when none is given: 16 MiB.
pub const DEFAULT_MEMORY_SIZE: u32 = 16777216;

/// The decimal device the options describe: on the given port (0 by default), reading and
/// writing the given streams (`stdin` and `stdout` by default), with no identifier.
pub open spec fn default_decimal(d: DeviceConfig, a: Args) -> bool {
    match d {
        DeviceConfig::DecimalIo { port, input, output, general } => {
            &&& port == (match a.decimal_port {
                Some(p) => p,
                None => 0,
            })
            &&& input@ == (match a.decimal_input {
                Some(x) => x@,
                None => "stdin"@,
            })
            &&& output@ == (match a.decimal_output {
                Some(x) => x@,
                None => "stdout"@,
            })
            &&& general.id is None
            &&& !general.fail_fast
        },
        _ => false,
    }
}

fn text_or(s: &Option<String>, d: &str) -> (r: String)
    ensures
        r@ == match s {
            Some(x) => x@,
            None => d@,
        },
{
    match s {
        Some(x) => owned(x.as_str()),
        None => owned(d),
    }
}

impl Args {
    /// The configuration the options describe. `loaded` is the configuration read from the
    /// `--config` option when it is given: the object file and the RAM size given on the
    /// command line override its own. Without it, the object file must be given; the
    /// machine gets the RAM size given (16 MiB by default) and, unless disabled, one decimal
    /// device on the given port (0 by default) reading and writing the given streams
    /// (`stdin` and `stdout` by default).
    pub fn to_config(&self, loaded: Option<VmConfig>) -> (r: Result<VmConfig, String>)
        ensures
            match loaded {
                Some(c) => r matches Ok(out) && out.rom@ == (match self.input {
                    Some(i) => i@,
                    None => c.rom@,
                }) && out.mem_size == (match self.memory_size {
                    Some(m) => m,
                    None => c.mem_size,
                }) && out.devices@ == c.devices@,
                None => match self.input {
                    None => r matches Err(m) && m@ == "missing ROM input path: provide INPUT or --config"@,
                    Some(i) => r matches Ok(out) && out.rom@ == i@ && out.mem_size == (match self.memory_size {
                        Some(m) => m,
                        None => DEFAULT_MEMORY_SIZE,
                    }) && (self.no_decimal_io ==> out.devices@.len() == 0) && (!self.no_decimal_io ==> out.devices@.len() == 1
                        && default_decimal(out.devices@[0], *self)),
                },
            },
    {
        if let Some(config) = loaded {
            let mut config = config;
            if let Some(input) = &self.input {
                config.rom = owned(input.as_str());
            }
            if let Some(memory_size) = self.memory_size {
                config.mem_size = memory_size;
            }
            return Ok(config);
        }
        let input = match &self.input {
            Some(i) => owned(i.as_str()),
            None => {
                return Err(owned("missing ROM input path: provide INPUT or --config"));
            },
        };
        let devices = if self.no_decimal_io {
            Vec::new()
        } else {
            let port = match self.decimal_port {
                Some(p) => p,
                None => 0,
            };
            let mut v: Vec<DeviceConfig> = Vec::new();
            v.push(DeviceConfig::DecimalIo {
                port,
                input: text_or(&self.decimal_input, "stdin"),
                output: text_or(&self.decimal_output, "stdout"),
                general: GeneralDeviceConfig { id: None, fail_fast: false },
            });
            v
        };
        let mem_size = match self.memory_size {
            Some(m) => m,
            None => DEFAULT_MEMORY_SIZE,
        };
        Ok(VmConfig { mem_size, rom: input, devices })
    }
}

} // verus!
